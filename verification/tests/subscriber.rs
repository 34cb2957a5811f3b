use ccdemo::subscriber::{
    decode_payload, start, step, Outcome, SubscriberAction, SubscriberEvent, SubscriberState,
};

fn received(payload: &[u8]) -> SubscriberEvent {
    SubscriberEvent::Received(payload.to_vec())
}

#[test]
fn a_run_begins_by_receiving() {
    let (state, action) = start();
    assert_eq!(state, SubscriberState::Receiving);
    assert!(matches!(action, SubscriberAction::Receive));
}

#[test]
fn a_word_is_stored_and_then_acknowledged() {
    let (state, action) = step(SubscriberState::Receiving, received(b"never"));
    assert_eq!(state, SubscriberState::Persisting);
    match action {
        SubscriberAction::Persist(word) => assert_eq!(word, "never"),
        other => panic!("unexpected action {:?}", other),
    }
    let (state, action) = step(state, SubscriberEvent::Persisted);
    assert_eq!(state, SubscriberState::Acknowledging);
    assert!(matches!(action, SubscriberAction::Acknowledge));
    let (state, action) = step(state, SubscriberEvent::Acknowledged);
    assert_eq!(state, SubscriberState::Receiving);
    assert!(matches!(action, SubscriberAction::Receive));
}

#[test]
fn an_empty_payload_is_acknowledged_without_an_insert() {
    let (state, action) = step(SubscriberState::Receiving, received(b""));
    assert_eq!(state, SubscriberState::Acknowledging);
    assert!(matches!(action, SubscriberAction::Acknowledge));
    let (state, action) = step(state, SubscriberEvent::Acknowledged);
    assert_eq!(state, SubscriberState::Receiving);
    assert!(matches!(action, SubscriberAction::Receive));
}

#[test]
fn a_payload_that_is_no_text_counts_as_empty() {
    for payload in [&[0xFFu8][..], &[0xC3, 0x28], &[b'a', 0x80], &[0xED, 0xA0, 0x80], &[0xF8]] {
        assert_eq!(decode_payload(payload.to_vec()), "");
        let (state, action) = step(SubscriberState::Receiving, received(payload));
        assert_eq!(state, SubscriberState::Acknowledging);
        assert!(matches!(action, SubscriberAction::Acknowledge));
    }
}

#[test]
fn a_payload_is_read_as_utf8() {
    assert_eq!(decode_payload(b"gonna".to_vec()), "gonna");
    assert_eq!(decode_payload("gr\u{fc}\u{df}e \u{4e16}\u{754c} \u{1F600}".as_bytes().to_vec()),
        "gr\u{fc}\u{df}e \u{4e16}\u{754c} \u{1F600}");
    assert_eq!(decode_payload(Vec::new()), "");
    assert_eq!(decode_payload(b" ".to_vec()), " ");
}

#[test]
fn a_failed_insert_stops_the_run_without_an_acknowledgement() {
    let (state, action) = step(SubscriberState::Receiving, received(b"give"));
    assert!(matches!(action, SubscriberAction::Persist(_)));
    let (state, action) = step(state, SubscriberEvent::PersistFailed);
    assert_eq!(state, SubscriberState::Failed);
    assert!(matches!(action, SubscriberAction::Stop(Outcome::PersistFailed)));
    for later in [
        SubscriberEvent::Acknowledged,
        SubscriberEvent::Persisted,
        received(b"you"),
        SubscriberEvent::StreamEnded,
    ] {
        let (state, action) = step(state, later);
        assert_eq!(state, SubscriberState::Failed);
        assert!(matches!(action, SubscriberAction::Stop(Outcome::OutOfTurn)));
    }
}

#[test]
fn a_refused_acknowledgement_stops_the_run() {
    let (state, action) = step(SubscriberState::Acknowledging, SubscriberEvent::AcknowledgeFailed);
    assert_eq!(state, SubscriberState::Failed);
    assert!(matches!(action, SubscriberAction::Stop(Outcome::AcknowledgeFailed)));
}

#[test]
fn the_end_of_the_stream_completes_the_run() {
    let (state, action) = step(SubscriberState::Receiving, SubscriberEvent::StreamEnded);
    assert_eq!(state, SubscriberState::Finished);
    assert!(matches!(action, SubscriberAction::Stop(Outcome::Completed)));
    let (state, action) = step(state, received(b"late"));
    assert_eq!(state, SubscriberState::Finished);
    assert!(matches!(action, SubscriberAction::Stop(Outcome::OutOfTurn)));
}

#[test]
fn an_event_out_of_turn_gives_the_run_up() {
    let cases = [
        (SubscriberState::Receiving, SubscriberEvent::Persisted),
        (SubscriberState::Receiving, SubscriberEvent::Acknowledged),
        (SubscriberState::Persisting, received(b"x")),
        (SubscriberState::Persisting, SubscriberEvent::Acknowledged),
        (SubscriberState::Persisting, SubscriberEvent::StreamEnded),
        (SubscriberState::Acknowledging, SubscriberEvent::Persisted),
        (SubscriberState::Acknowledging, received(b"x")),
    ];
    for (state, event) in cases {
        let (next, action) = step(state, event);
        assert_eq!(next, SubscriberState::Failed);
        assert!(matches!(action, SubscriberAction::Stop(Outcome::OutOfTurn)));
    }
}

#[test]
fn every_acknowledgement_of_a_run_follows_its_insert() {
    let payloads: [&[u8]; 5] = [b"we're", b"", b"no", &[0xFF], b"strangers"];
    let (mut state, mut action) = start();
    let mut stored: Vec<String> = Vec::new();
    let mut acknowledged = 0;
    let mut next = 0;
    let mut pending: Option<String> = None;
    loop {
        let event = match action {
            SubscriberAction::Receive => {
                if next == payloads.len() {
                    SubscriberEvent::StreamEnded
                } else {
                    next += 1;
                    received(payloads[next - 1])
                }
            }
            SubscriberAction::Persist(word) => {
                pending = Some(word);
                SubscriberEvent::Persisted
            }
            SubscriberAction::Acknowledge => {
                if let Some(word) = pending.take() {
                    stored.push(word);
                }
                acknowledged += 1;
                assert_eq!(acknowledged, next);
                SubscriberEvent::Acknowledged
            }
            SubscriberAction::Stop(outcome) => {
                assert_eq!(outcome, Outcome::Completed);
                break;
            }
        };
        let (s, a) = step(state, event);
        state = s;
        action = a;
    }
    assert_eq!(state, SubscriberState::Finished);
    assert_eq!(acknowledged, 5);
    assert_eq!(stored, vec!["we're".to_string(), "no".to_string(), "strangers".to_string()]);
}

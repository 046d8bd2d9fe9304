use fasttext_serving::session::create_fasttext_serving;
use fasttext_serving::session::FasttextServingClient;
use fasttext_serving::session::FasttextServingService;
use fasttext_serving::session::PredictRequest;
use fasttext_serving::session::SessionOutcome;
use fasttext_serving::session::StreamEvent;
use fasttext_serving::session::StreamSession;
use fasttext_serving::session::VectorSession;
use fasttext_serving::session::run_session;

fn raw_reply(label: &str, prob: f32) -> Vec<(String, u32)> {
    vec![(format!("__label__{}", label), prob.to_bits())]
}

#[test]
fn message_defaults_floor_k() {
    let req = PredictRequest { text: "a text".to_string(), k: None, threshold_bits: None };
    let call = req.to_call();
    assert_eq!(call.k, 1);
    assert_eq!(call.threshold_bits, 0.0f32.to_bits());
    assert_eq!(call.text, "a text\n");
}

#[test]
fn message_zero_k_is_floored() {
    let req = PredictRequest { text: "t".to_string(), k: Some(0), threshold_bits: Some(0.3f32.to_bits()) };
    let call = req.to_call();
    assert_eq!(call.k, 1);
    assert_eq!(call.threshold_bits, 0.3f32.to_bits());
}

#[test]
fn session_accumulates_in_arrival_order() {
    let mut session = StreamSession::new();
    session.push_result(&raw_reply("first", 0.9));
    session.push_result(&raw_reply("second", 0.8));
    let response = session.finish();
    assert_eq!(response.predictions.len(), 2);
    assert_eq!(response.predictions[0].labels, vec!["first"]);
    assert_eq!(response.predictions[1].labels, vec!["second"]);
}

#[test]
fn three_messages_then_half_close_keep_order() {
    let events = vec![
        StreamEvent::Message(raw_reply("alpha", 0.9)),
        StreamEvent::Message(raw_reply("beta", 0.8)),
        StreamEvent::Message(raw_reply("gamma", 0.7)),
        StreamEvent::HalfClose,
    ];
    let endpoint = create_fasttext_serving(FasttextServingService {});
    let mut client = FasttextServingClient::new(endpoint);
    match client.predict(&events) {
        SessionOutcome::Response(resp) => {
            assert_eq!(resp.predictions.len(), 3);
            assert_eq!(resp.predictions[0].labels, vec!["alpha"]);
            assert_eq!(resp.predictions[1].labels, vec!["beta"]);
            assert_eq!(resp.predictions[2].labels, vec!["gamma"]);
            assert!(f32::from_bits(resp.predictions[0].prob_bits[0]) > 0.7);
        },
        _ => panic!("a cleanly half-closed stream must get a response"),
    }
}

#[test]
fn disconnect_mid_stream_yields_no_response() {
    let events = vec![
        StreamEvent::Message(raw_reply("alpha", 0.9)),
        StreamEvent::Message(raw_reply("beta", 0.8)),
        StreamEvent::Disconnect,
    ];
    let outcome = run_session(&events);
    assert!(matches!(outcome, SessionOutcome::Aborted));
}

#[test]
fn stream_without_half_close_is_aborted() {
    let events = vec![StreamEvent::Message(raw_reply("alpha", 0.9))];
    let outcome = run_session(&events);
    assert!(matches!(outcome, SessionOutcome::Aborted));
}

#[test]
fn transport_fault_fails_the_call() {
    let events = vec![
        StreamEvent::Message(raw_reply("alpha", 0.9)),
        StreamEvent::Fault,
    ];
    let outcome = run_session(&events);
    assert!(matches!(outcome, SessionOutcome::Failed));
}

#[test]
fn empty_stream_with_half_close_gets_empty_response() {
    let events = vec![StreamEvent::HalfClose];
    match run_session(&events) {
        SessionOutcome::Response(resp) => assert_eq!(resp.predictions.len(), 0),
        _ => panic!("an immediately half-closed stream must get an empty response"),
    }
}

#[test]
fn events_after_the_terminal_are_ignored() {
    let events = vec![
        StreamEvent::Message(raw_reply("alpha", 0.9)),
        StreamEvent::HalfClose,
        StreamEvent::Fault,
    ];
    match run_session(&events) {
        SessionOutcome::Response(resp) => assert_eq!(resp.predictions.len(), 1),
        _ => panic!("the half-close decides the session"),
    }
}

#[test]
fn vector_session_keeps_arrival_order() {
    let mut session = VectorSession::new();
    session.push_vector(vec![0.1f32.to_bits(), 0.2f32.to_bits()]);
    session.push_vector(vec![0.3f32.to_bits()]);
    let response = session.finish();
    assert_eq!(response.vectors.len(), 2);
    assert_eq!(response.vectors[0].value_bits, vec![0.1f32.to_bits(), 0.2f32.to_bits()]);
    assert_eq!(response.vectors[1].value_bits, vec![0.3f32.to_bits()]);
}

#[test]
fn vector_session_abort_discards_everything() {
    let mut session = VectorSession::new();
    session.push_vector(vec![0.5f32.to_bits()]);
    session.abort();
}

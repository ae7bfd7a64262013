use matchbox_server_star::protocol::{PeerEvent, PeerId, PeerRequest, PeerSignal, SignalEvent};
use matchbox_server_star::topology::{ClientRequestError, MatchmakingDemoTopology};
use matchbox_server_star::wire::Json;
use serde_json::{Number, Value};

type Event = SignalEvent<PeerSignal>;
type Request = PeerRequest<PeerSignal>;

const A: u128 = 0xa1a2a3a4_b1b2_c1c2_d1d2_d3d4d5d6d7d8;
const A_TEXT: &str = "a1a2a3a4-b1b2-c1c2-d1d2-d3d4d5d6d7d8";
const B: u128 = 0x11111111_2222_4333_8444_555555555555;
const B_TEXT: &str = "11111111-2222-4333-8444-555555555555";

fn to_value(j: &Json) -> Value {
    match j {
        Json::Null => Value::Null,
        Json::Bool(b) => Value::Bool(*b),
        Json::Unsigned(n) => Value::Number(Number::from(*n)),
        Json::Negative(n) => Value::Number(Number::from(*n)),
        Json::Real(bits) => Number::from_f64(f64::from_bits(*bits)).map(Value::Number).unwrap_or(Value::Null),
        Json::Text(s) => Value::String(s.clone()),
        Json::Array(items) => Value::Array(items.iter().map(to_value).collect()),
        Json::Object(members) => {
            let mut map = serde_json::Map::new();
            for (k, v) in members {
                map.insert(k.clone(), to_value(v));
            }
            Value::Object(map)
        }
    }
}

fn from_value(v: &Value) -> Json {
    match v {
        Value::Null => Json::Null,
        Value::Bool(b) => Json::Bool(*b),
        Value::Number(n) => {
            if let Some(u) = n.as_u64() {
                Json::Unsigned(u)
            } else if let Some(i) = n.as_i64() {
                Json::Negative(i)
            } else {
                Json::Real(n.as_f64().unwrap_or(0.0).to_bits())
            }
        }
        Value::String(s) => Json::Text(s.clone()),
        Value::Array(items) => Json::Array(items.iter().map(from_value).collect()),
        Value::Object(map) => Json::Object(map.iter().map(|(k, v)| (k.clone(), from_value(v))).collect()),
    }
}

fn parse(text: &str) -> Json {
    from_value(&serde_json::from_str::<Value>(text).expect("valid JSON"))
}

fn same_document(j: &Json, text: &str) -> bool {
    to_value(j) == serde_json::from_str::<Value>(text).expect("valid JSON")
}

fn tag(key: &str, body: Json) -> Json {
    Json::Object(vec![(key.to_string(), body)])
}

fn all_events() -> Vec<Event> {
    vec![
        SignalEvent::Peer(PeerEvent::IdAssigned(PeerId(A))),
        SignalEvent::Peer(PeerEvent::NewPeer(PeerId(B))),
        SignalEvent::Peer(PeerEvent::PeerLeft(PeerId(0))),
        SignalEvent::Peer(PeerEvent::Signal { sender: PeerId(u128::MAX), data: PeerSignal::IceCandidate("c \"1\"".to_string()) }),
        SignalEvent::Peer(PeerEvent::Signal { sender: PeerId(A), data: PeerSignal::Offer(String::new()) }),
        SignalEvent::Peer(PeerEvent::Signal { sender: PeerId(B), data: PeerSignal::Answer("sdp".to_string()) }),
        SignalEvent::RoomOpened("alpha".to_string()),
        SignalEvent::RoomOpened(String::new()),
        SignalEvent::RoomClosed,
        SignalEvent::HostStatus(true),
        SignalEvent::HostStatus(false),
        SignalEvent::Data(vec![]),
        SignalEvent::Data(vec![0, 1, 127, 255]),
    ]
}

#[test]
fn peer_id_is_written_as_canonical_uuid_text() {
    assert_eq!(PeerId(A).to_text(), A_TEXT);
    assert_eq!(PeerId(u128::MAX).to_text(), "ffffffff-ffff-ffff-ffff-ffffffffffff");
    assert_eq!(PeerId(A).to_json(), Json::Text(A_TEXT.to_string()));
    assert_eq!(PeerId(0).to_json(), Json::Text("00000000-0000-0000-0000-000000000000".to_string()));
    assert_eq!(PeerId::from_json(&Json::Text(A_TEXT.to_string())), Some(PeerId(A)));
    assert_eq!(PeerId::from_json(&PeerId(B).to_json()), Some(PeerId(B)));
}

#[test]
fn peer_id_is_read_from_other_uuid_forms() {
    assert_eq!(PeerId::from_json(&Json::Text("a1a2a3a4b1b2c1c2d1d2d3d4d5d6d7d8".to_string())), Some(PeerId(A)));
    assert_eq!(PeerId::from_json(&Json::Text(A_TEXT.to_uppercase())), Some(PeerId(A)));
}

#[test]
fn peer_id_is_not_read_from_other_documents() {
    assert_eq!(PeerId::from_json(&Json::Text("alpha".to_string())), None);
    assert_eq!(PeerId::from_json(&Json::Text(String::new())), None);
    assert_eq!(PeerId::from_json(&Json::Unsigned(7)), None);
    assert_eq!(PeerId::from_json(&Json::Null), None);
}

#[test]
fn events_are_written_as_the_wire_format_says() {
    let cases: Vec<(Event, String)> = vec![
        (SignalEvent::Peer(PeerEvent::IdAssigned(PeerId(A))), format!("{{\"Peer\":{{\"IdAssigned\":\"{A_TEXT}\"}}}}")),
        (SignalEvent::Peer(PeerEvent::NewPeer(PeerId(B))), format!("{{\"Peer\":{{\"NewPeer\":\"{B_TEXT}\"}}}}")),
        (SignalEvent::Peer(PeerEvent::PeerLeft(PeerId(B))), format!("{{\"Peer\":{{\"PeerLeft\":\"{B_TEXT}\"}}}}")),
        (
            SignalEvent::Peer(PeerEvent::Signal { sender: PeerId(B), data: PeerSignal::Offer("sdp-1".to_string()) }),
            format!("{{\"Peer\":{{\"Signal\":{{\"sender\":\"{B_TEXT}\",\"data\":{{\"Offer\":\"sdp-1\"}}}}}}}}"),
        ),
        (SignalEvent::RoomOpened("alpha".to_string()), "{\"RoomOpened\":\"alpha\"}".to_string()),
        (SignalEvent::RoomClosed, "{\"RoomClosed\":null}".to_string()),
        (SignalEvent::HostStatus(true), "{\"HostStatus\":true}".to_string()),
        (SignalEvent::HostStatus(false), "{\"HostStatus\":false}".to_string()),
        (SignalEvent::Data(vec![1, 2, 255]), "{\"Data\":[1,2,255]}".to_string()),
    ];
    for (event, text) in cases {
        assert!(same_document(&event.to_json(), &text), "{event:?} against {text}");
        assert_eq!(Event::from_json(&parse(&text)), Some(event));
    }
}

#[test]
fn event_member_order_is_as_written() {
    let event: Event =
        SignalEvent::Peer(PeerEvent::Signal { sender: PeerId(B), data: PeerSignal::Answer("x".to_string()) });
    let expected = tag(
        "Peer",
        tag(
            "Signal",
            Json::Object(vec![
                ("sender".to_string(), Json::Text(B_TEXT.to_string())),
                ("data".to_string(), tag("Answer", Json::Text("x".to_string()))),
            ]),
        ),
    );
    assert_eq!(event.to_json(), expected);
}

#[test]
fn requests_are_written_as_the_wire_format_says() {
    let signal: Request = PeerRequest::Signal { receiver: PeerId(A), data: PeerSignal::Offer("sdp-1".to_string()) };
    let text = format!("{{\"Signal\":{{\"receiver\":\"{A_TEXT}\",\"data\":{{\"Offer\":\"sdp-1\"}}}}}}");
    assert!(same_document(&signal.to_json(), &text));
    assert_eq!(Request::from_json(&parse(&text)), Some(signal));
    let keep: Request = PeerRequest::KeepAlive;
    assert!(same_document(&keep.to_json(), "{\"KeepAlive\":null}"));
    assert_eq!(Request::from_json(&parse("{ \"KeepAlive\" : null }")), Some(PeerRequest::KeepAlive));
}

#[test]
fn signals_are_written_as_the_wire_format_says() {
    assert!(same_document(&PeerSignal::IceCandidate("c".to_string()).to_json(), "{\"IceCandidate\":\"c\"}"));
    assert!(same_document(&PeerSignal::Offer("o".to_string()).to_json(), "{\"Offer\":\"o\"}"));
    assert!(same_document(&PeerSignal::Answer("a".to_string()).to_json(), "{\"Answer\":\"a\"}"));
    assert_eq!(PeerSignal::from_json(&parse("{\"Answer\":\"a\"}")), Some(PeerSignal::Answer("a".to_string())));
}

#[test]
fn every_event_round_trips() {
    for event in all_events() {
        let document = event.to_json();
        assert_eq!(Event::from_json(&document), Some(event));
        let text = serde_json::to_string(&to_value(&document)).expect("text");
        let again = Event::from_json(&parse(&text)).expect("an event");
        assert!(same_document(&again.to_json(), &text));
        assert_eq!(Event::from_json(&again.to_json()), Some(again));
    }
}

#[test]
fn every_request_round_trips() {
    let requests: Vec<Request> = vec![
        PeerRequest::KeepAlive,
        PeerRequest::Signal { receiver: PeerId(A), data: PeerSignal::IceCandidate("candidate:1".to_string()) },
        PeerRequest::Signal { receiver: PeerId(B), data: PeerSignal::Offer("o\n".to_string()) },
        PeerRequest::Signal { receiver: PeerId(0), data: PeerSignal::Answer(String::new()) },
    ];
    for request in requests {
        let document = request.to_json();
        let text = serde_json::to_string(&to_value(&document)).expect("text");
        assert_eq!(Request::from_json(&parse(&text)).as_ref(), Some(&request));
        assert_eq!(Request::from_json(&document), Some(request));
    }
}

#[test]
fn members_of_a_signal_are_read_in_either_order() {
    let text = format!("{{\"Signal\":{{\"data\":{{\"Answer\":\"a\"}},\"receiver\":\"{B_TEXT}\"}}}}");
    let swapped = tag(
        "Signal",
        Json::Object(vec![
            ("data".to_string(), tag("Answer", Json::Text("a".to_string()))),
            ("receiver".to_string(), Json::Text(B_TEXT.to_string())),
        ]),
    );
    let expected: Request = PeerRequest::Signal { receiver: PeerId(B), data: PeerSignal::Answer("a".to_string()) };
    assert_eq!(Request::from_json(&swapped).as_ref(), Some(&expected));
    assert_eq!(Request::from_json(&parse(&text)), Some(expected));
}

#[test]
fn documents_that_are_no_request_are_refused() {
    let bad = [
        "null",
        "\"KeepAlive\"",
        "{}",
        "{\"KeepAlive\":true}",
        "{\"KeepAlive\":null,\"Signal\":null}",
        "{\"Ping\":null}",
        "{\"Signal\":null}",
        "{\"Signal\":{\"receiver\":\"11111111-2222-4333-8444-555555555555\"}}",
        "{\"Signal\":{\"receiver\":\"nobody\",\"data\":{\"Offer\":\"o\"}}}",
        "{\"Signal\":{\"receiver\":\"11111111-2222-4333-8444-555555555555\",\"data\":{\"Offer\":1}}}",
        "{\"Signal\":{\"receiver\":\"11111111-2222-4333-8444-555555555555\",\"data\":{\"Hello\":\"o\"}}}",
        "{\"Signal\":{\"receiver\":\"11111111-2222-4333-8444-555555555555\",\"data\":{\"Offer\":\"o\"},\"more\":1}}",
        "{\"Signal\":{\"sender\":\"11111111-2222-4333-8444-555555555555\",\"data\":{\"Offer\":\"o\"}}}",
    ];
    for text in bad {
        assert_eq!(Request::from_json(&parse(text)), None, "{text}");
        assert_eq!(MatchmakingDemoTopology::parse_request(&parse(text)), Err(ClientRequestError::Json), "{text}");
    }
}

#[test]
fn documents_that_are_no_event_are_refused() {
    let bad = [
        "[]",
        "{\"RoomClosed\":false}",
        "{\"RoomOpened\":null}",
        "{\"HostStatus\":\"true\"}",
        "{\"HostStatus\":1}",
        "{\"Data\":[1,256]}",
        "{\"Data\":[-1]}",
        "{\"Data\":[1.5]}",
        "{\"Data\":\"AQI=\"}",
        "{\"Peer\":null}",
        "{\"Peer\":{\"NewPeer\":7}}",
        "{\"Peer\":{\"Gone\":\"11111111-2222-4333-8444-555555555555\"}}",
        "{\"Peer\":{\"Signal\":{\"receiver\":\"11111111-2222-4333-8444-555555555555\",\"data\":{\"Offer\":\"o\"}}}}",
        "{\"NewPeer\":\"11111111-2222-4333-8444-555555555555\"}",
    ];
    for text in bad {
        assert_eq!(Event::from_json(&parse(text)), None, "{text}");
    }
}

#[test]
fn parse_request_reads_a_request() {
    let text = format!("{{\"Signal\":{{\"receiver\":\"{A_TEXT}\",\"data\":{{\"IceCandidate\":\"c\"}}}}}}");
    assert_eq!(
        MatchmakingDemoTopology::parse_request(&parse(&text)),
        Ok(PeerRequest::Signal { receiver: PeerId(A), data: PeerSignal::IceCandidate("c".to_string()) })
    );
    assert_eq!(MatchmakingDemoTopology::parse_request(&parse("{\"KeepAlive\":null}")), Ok(PeerRequest::KeepAlive));
}

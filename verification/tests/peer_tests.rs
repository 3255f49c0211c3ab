use peer_mesh::codec::{CodecError, Packet};
use peer_mesh::event::{Dispatch, EventBus};
use peer_mesh::peer::Peer;

fn packet(event: &str, data: &str) -> Packet {
    Packet { event: event.to_string(), data: data.to_string() }
}

#[test]
fn a_new_peer_is_open_and_empty() {
    let peer: Peer<u32> = Peer::new(3, "10.0.0.1:9000".to_string());
    assert_eq!(peer.id(), 3);
    assert_eq!(peer.address(), "10.0.0.1:9000");
    assert!(peer.open());
    let global: EventBus<u32> = EventBus::new();
    assert!(matches!(peer.trigger(&global, "anything", ()), Dispatch::Unbound));
}

#[test]
fn ping_handler_is_invoked_once_with_42() {
    let global: EventBus<&str> = EventBus::new();
    let mut peer: Peer<&str> = Peer::new(0, "a".to_string());
    peer.on("ping").register("H");
    let outcomes = peer.listen(b"{\"event\":\"ping\",\"data\":\"42\"}\x04");
    assert_eq!(outcomes, vec![Ok(packet("ping", "42"))]);
    let mut calls: Vec<(&str, String)> = Vec::new();
    for outcome in outcomes {
        let packet = outcome.unwrap();
        if let Dispatch::Invoke { handler, payload } = peer.trigger(&global, &packet.event, packet.data) {
            calls.push((*handler, payload));
        }
    }
    assert_eq!(calls, vec![("H", "42".to_string())]);
}

#[test]
fn unknown_event_runs_nothing_and_the_link_stays_open() {
    let global: EventBus<&str> = EventBus::new();
    let mut peer: Peer<&str> = Peer::new(0, "a".to_string());
    peer.on("ping").register("H");
    let outcomes = peer.listen(b"{\"event\":\"unknown\",\"data\":\"x\"}\x04");
    assert_eq!(outcomes, vec![Ok(packet("unknown", "x"))]);
    let outcome = peer.trigger(&global, "unknown", "x".to_string());
    assert!(matches!(outcome, Dispatch::Unbound));
    assert!(!outcome.bound());
    assert!(peer.open());
    let later = peer.listen(b"{\"event\":\"ping\",\"data\":\"1\"}\x04");
    assert_eq!(later, vec![Ok(packet("ping", "1"))]);
    assert!(matches!(
        peer.trigger(&global, "ping", "1".to_string()),
        Dispatch::Invoke { handler: &"H", .. }
    ));
}

#[test]
fn trigger_prefers_the_peers_own_table() {
    let mut global: EventBus<&str> = EventBus::new();
    global.bind("both").register("global");
    global.bind("shared").register("global-shared");
    global.bind("muted").register("global-muted");
    let mut peer: Peer<&str> = Peer::new(0, "a".to_string());
    peer.on("both").register("local");
    peer.on("own").register("local-own");
    peer.on("muted");
    assert!(matches!(peer.trigger(&global, "both", 1), Dispatch::Invoke { handler: &"local", payload: 1 }));
    assert!(matches!(peer.trigger(&global, "own", 2), Dispatch::Invoke { handler: &"local-own", payload: 2 }));
    assert!(matches!(
        peer.trigger(&global, "shared", 3),
        Dispatch::Invoke { handler: &"global-shared", payload: 3 }
    ));
    assert!(matches!(peer.trigger(&global, "muted", 4), Dispatch::Silent));
    assert!(matches!(peer.trigger(&global, "nowhere", 5), Dispatch::Unbound));
}

#[test]
fn emit_gives_the_frame_to_write() {
    let peer: Peer<u32> = Peer::new(0, "a".to_string());
    let frame = peer.emit("ping".to_string(), "42".to_string()).unwrap();
    let mut expected = b"{\"event\":\"ping\",\"data\":\"42\"}".to_vec();
    expected.push(0x04);
    assert_eq!(frame, expected);
}

#[test]
fn what_one_peer_emits_the_other_hears() {
    let sender: Peer<u32> = Peer::new(0, "a".to_string());
    let mut receiver: Peer<u32> = Peer::new(1, "b".to_string());
    let mut wire = sender.emit("x".to_string(), "y".to_string()).unwrap();
    wire.extend(sender.emit("second".to_string(), "\u{4}".to_string()).unwrap());
    let (first, second) = wire.split_at(5);
    let mut heard = receiver.listen(first);
    heard.extend(receiver.listen(second));
    assert_eq!(heard, vec![Ok(packet("x", "y")), Ok(packet("second", "\u{4}"))]);
}

#[test]
fn receive_cuts_records_without_decoding() {
    let mut peer: Peer<u32> = Peer::new(0, "a".to_string());
    assert!(peer.receive(b"ab").is_empty());
    assert_eq!(peer.receive(b"c\x04d\x04e"), vec![b"abc".to_vec(), b"d".to_vec()]);
    assert_eq!(peer.receive(b"\x04"), vec![b"e".to_vec()]);
}

#[test]
fn decode_message_reports_a_malformed_record() {
    let peer: Peer<u32> = Peer::new(0, "a".to_string());
    assert_eq!(peer.decode_message(b"{\"event\":\"e\",\"data\":\"d\"}"), Ok(packet("e", "d")));
    assert_eq!(peer.decode_message(b"{\"event\":\"e\",\"da"), Err(CodecError::Malformed));
    assert_eq!(peer.decode_message(b"{\"event\":\"e\"}"), Err(CodecError::Schema));
}

#[test]
fn a_malformed_record_is_dropped_and_the_next_is_read() {
    let mut peer: Peer<u32> = Peer::new(0, "a".to_string());
    let outcomes = peer.listen(b"garbage\x04{\"event\":1,\"data\":\"d\"}\x04{\"event\":\"ok\",\"data\":\"d\"}\x04");
    assert_eq!(
        outcomes,
        vec![Err(CodecError::Malformed), Err(CodecError::Schema), Ok(packet("ok", "d"))]
    );
    assert!(peer.open());
}

#[test]
fn close_is_reported_once_and_ends_the_frames() {
    let mut peer: Peer<u32> = Peer::new(0, "a".to_string());
    assert!(peer.listen(b"{\"event\":\"e\",").is_empty());
    assert!(peer.close());
    assert!(!peer.open());
    assert!(!peer.close());
    assert!(peer.listen(b"\"data\":\"d\"}\x04").is_empty());
    assert!(peer.receive(b"x\x04").is_empty());
    assert!(peer.listen(b"{\"event\":\"e\",\"data\":\"d\"}\x04").is_empty());
}

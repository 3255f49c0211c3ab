use peer_mesh::codec::{CodecError, Packet};
use peer_mesh::discovery::DISCOVERY_SOURCE_PORT;
use peer_mesh::event::Dispatch;
use peer_mesh::network::{Argument, Network, Notice, Plan};

fn node(port: u16) -> Network<&'static str> {
    Network::new("0.0.0.0".to_string(), port)
}

#[test]
fn a_new_network_is_idle_and_empty() {
    let network = node(9000);
    assert_eq!(network.ip(), "0.0.0.0");
    assert_eq!(network.port(), 9000);
    assert!(!network.listening());
    assert!(network.peer_ids().is_empty());
    assert!(network.peer(0).is_none());
}

#[test]
fn serve_names_the_loops_to_start() {
    let mut network = node(9000);
    assert_eq!(
        network.serve(true, true),
        Plan { dispatcher: true, tcp_accept: true, udp_discovery: true }
    );
    assert!(network.listening());
    assert_eq!(
        network.serve(false, true),
        Plan { dispatcher: true, tcp_accept: false, udp_discovery: true }
    );
    assert_eq!(
        network.serve(true, false),
        Plan { dispatcher: true, tcp_accept: true, udp_discovery: false }
    );
    assert_eq!(
        network.serve(false, false),
        Plan { dispatcher: true, tcp_accept: false, udp_discovery: false }
    );
    assert!(network.listening());
}

#[test]
fn connect_announces_the_own_port() {
    let network = node(8080);
    let datagram = network.connect("10.0.0.2".to_string(), 9999);
    assert_eq!(datagram.source_port, DISCOVERY_SOURCE_PORT);
    assert_eq!(datagram.ip, "10.0.0.2");
    assert_eq!(datagram.port, 9999);
    assert_eq!(datagram.payload, vec![0x1f, 0x90]);
}

#[test]
fn tcp_server_registers_peers_under_fresh_identifiers() {
    let mut network = node(1);
    assert_eq!(network.tcp_server("10.0.0.2:50000".to_string()), Some(Notice::Connect { peer: 0 }));
    assert_eq!(network.tcp_server("10.0.0.3:50001".to_string()), Some(Notice::Connect { peer: 1 }));
    assert_eq!(network.peer_ids(), vec![0, 1]);
    let first = network.peer(0).unwrap();
    assert_eq!(first.address(), "10.0.0.2:50000");
    assert!(first.open());
    assert_eq!(network.peer(1).unwrap().address(), "10.0.0.3:50001");
    assert!(network.peer(2).is_none());
}

#[test]
fn tcp_connect_names_the_peer_by_its_endpoint() {
    let mut network = node(1);
    assert_eq!(network.tcp_connect("10.0.0.9", 7000), Some(Notice::Connect { peer: 0 }));
    assert_eq!(network.peer(0).unwrap().address(), "10.0.0.9:7000");
    assert_eq!(network.peer(0).unwrap().id(), 0);
}

#[test]
fn udp_server_connects_back_to_the_sender() {
    let mut b = node(9000);
    let step = b.udp_server("10.0.0.2", &[0x1f, 0x90]);
    assert!(matches!(step.call, Dispatch::Unbound));
    assert_eq!(step.connect, Some(("10.0.0.2".to_string(), 8080)));
    b.on("connection_request").register("asked");
    let step = b.udp_server("10.0.0.2", &[0x1f, 0x90]);
    match step.call {
        Dispatch::Invoke { handler, payload } => {
            assert_eq!(*handler, "asked");
            assert_eq!(payload, Argument::Data("10.0.0.2:8080".to_string()));
        }
        _ => panic!("the request name is bound"),
    }
    assert_eq!(step.connect, Some(("10.0.0.2".to_string(), 8080)));
}

#[test]
fn discovery_makes_the_link_two_way() {
    let a = node(8080);
    let mut b = node(9000);
    let datagram = a.connect("10.0.0.1".to_string(), 9000);
    let step = b.udp_server("10.0.0.2", &datagram.payload);
    let (ip, port) = step.connect.unwrap();
    assert_eq!((ip.as_str(), port), ("10.0.0.2", a.port()));
    assert_eq!(b.tcp_connect(&ip, port), Some(Notice::Connect { peer: 0 }));
    assert_eq!(b.peer(0).unwrap().address(), "10.0.0.2:8080");
    let mut a = a;
    assert_eq!(a.tcp_server("10.0.0.1:41000".to_string()), Some(Notice::Connect { peer: 0 }));
    assert_eq!(a.peer_ids(), vec![0]);
    assert_eq!(b.peer_ids(), vec![0]);
}

#[test]
fn emit_names_the_frame_and_every_peer() {
    let mut network = node(1);
    network.tcp_server("a".to_string());
    network.tcp_server("b".to_string());
    network.tcp_server("c".to_string());
    let broadcast = network.emit("ping".to_string(), "42".to_string()).unwrap();
    let mut expected = b"{\"event\":\"ping\",\"data\":\"42\"}".to_vec();
    expected.push(0x04);
    assert_eq!(broadcast.frame, expected);
    assert_eq!(broadcast.recipients, vec![0, 1, 2]);
    let empty = node(2).emit("e".to_string(), "d".to_string()).unwrap();
    assert!(empty.recipients.is_empty());
}

#[test]
fn prune_drops_exactly_the_peers_whose_write_failed() {
    let mut network = node(1);
    for address in ["a", "b", "c", "d", "e"] {
        network.tcp_server(address.to_string());
    }
    network.prune(&[1, 3]);
    assert_eq!(network.peer_ids(), vec![0, 2, 4]);
    assert!(network.peer(1).is_none());
    assert!(network.peer(3).is_none());
    assert_eq!(network.peer(2).unwrap().address(), "c");
    network.prune(&[]);
    assert_eq!(network.peer_ids(), vec![0, 2, 4]);
    network.prune(&[7, 1, 4, 4]);
    assert_eq!(network.peer_ids(), vec![0, 2]);
    network.prune(&[0, 2]);
    assert!(network.peer_ids().is_empty());
    assert_eq!(network.tcp_server("f".to_string()), Some(Notice::Connect { peer: 5 }));
    assert_eq!(network.peer_ids(), vec![5]);
}

#[test]
fn received_decodes_for_a_registered_peer_only() {
    let mut network = node(1);
    network.tcp_server("a".to_string());
    network.tcp_server("b".to_string());
    assert!(network.received(0, b"{\"event\":\"pi").is_empty());
    assert!(network.received(1, b"{\"event\":\"other\",\"data\":\"").is_empty());
    let heard = network.received(0, b"ng\",\"data\":\"42\"}\x04bad\x04");
    assert_eq!(
        heard,
        vec![
            Ok(Packet { event: "ping".to_string(), data: "42".to_string() }),
            Err(CodecError::Malformed)
        ]
    );
    let heard = network.received(1, b"z\"}\x04");
    assert_eq!(heard, vec![Ok(Packet { event: "other".to_string(), data: "z".to_string() })]);
    assert!(network.received(9, b"{\"event\":\"e\",\"data\":\"d\"}\x04").is_empty());
}

#[test]
fn closed_announces_the_disconnect_exactly_once() {
    let mut network = node(1);
    network.tcp_server("a".to_string());
    network.tcp_server("b".to_string());
    assert!(network.received(0, b"{\"event\":\"e\",").is_empty());
    assert_eq!(network.closed(0), Some(Notice::Disconnect { peer: 0 }));
    assert_eq!(network.peer_ids(), vec![1]);
    assert_eq!(network.closed(0), None);
    assert_eq!(network.closed(0), None);
    assert!(network.received(0, b"\"data\":\"d\"}\x04").is_empty());
    assert!(network.received(0, b"{\"event\":\"e\",\"data\":\"d\"}\x04").is_empty());
    assert_eq!(network.closed(5), None);
    assert_eq!(network.peer_ids(), vec![1]);
    assert_eq!(network.tcp_server("c".to_string()), Some(Notice::Connect { peer: 2 }));
}

#[test]
fn dispatch_announces_connect_and_disconnect_with_the_peer() {
    let mut network = node(1);
    let step = network.dispatch(Notice::Connect { peer: 4 });
    assert!(matches!(step.call, Dispatch::Unbound));
    assert!(step.connect.is_none());
    network.on("connect").register("joined");
    network.on("disconnect").register("left");
    let step = network.dispatch(Notice::Connect { peer: 4 });
    assert!(matches!(
        step.call,
        Dispatch::Invoke { handler: &"joined", payload: Argument::Peer(4) }
    ));
    assert!(step.connect.is_none());
    let step = network.dispatch(Notice::Disconnect { peer: 6 });
    assert!(matches!(
        step.call,
        Dispatch::Invoke { handler: &"left", payload: Argument::Peer(6) }
    ));
    assert!(step.connect.is_none());
}

#[test]
fn dispatch_of_a_request_calls_for_a_connection() {
    let mut network = node(1);
    let step = network.dispatch(Notice::Request { endpoint: "10.0.0.5:8080".to_string() });
    assert!(matches!(step.call, Dispatch::Unbound));
    assert_eq!(step.connect, Some(("10.0.0.5".to_string(), 8080)));
    let step = network.dispatch(Notice::Request { endpoint: "no port here".to_string() });
    assert!(step.connect.is_none());
    let step = network.dispatch(Notice::Request { endpoint: "10.0.0.5:99999".to_string() });
    assert!(step.connect.is_none());
    network.on("connection_request").register("asked");
    let step = network.dispatch(Notice::Packet {
        peer: 0,
        event: "connection_request".to_string(),
        data: "10.0.0.6:81".to_string(),
    });
    match step.call {
        Dispatch::Invoke { handler, payload } => {
            assert_eq!(*handler, "asked");
            assert_eq!(payload, Argument::Data("10.0.0.6:81".to_string()));
        }
        _ => panic!("the request name is bound"),
    }
    assert_eq!(step.connect, Some(("10.0.0.6".to_string(), 81)));
}

#[test]
fn dispatch_of_a_packet_is_local_first_then_global() {
    let mut network = node(1);
    network.tcp_server("a".to_string());
    network.tcp_server("b".to_string());
    network.on("ping").register("global");
    network.peer_on(0, "ping").unwrap().register("local");
    assert!(network.peer_on(7, "ping").is_none());
    let ping = |peer: u64| Notice::Packet { peer, event: "ping".to_string(), data: "42".to_string() };
    match network.dispatch(ping(0)).call {
        Dispatch::Invoke { handler, payload } => {
            assert_eq!(*handler, "local");
            assert_eq!(payload, Argument::Data("42".to_string()));
        }
        _ => panic!("ping is bound for peer 0"),
    }
    assert!(matches!(network.dispatch(ping(1)).call, Dispatch::Invoke { handler: &"global", .. }));
    assert!(matches!(network.dispatch(ping(9)).call, Dispatch::Invoke { handler: &"global", .. }));
    let unknown = Notice::Packet { peer: 0, event: "unknown".to_string(), data: "x".to_string() };
    let step = network.dispatch(unknown);
    assert!(matches!(step.call, Dispatch::Unbound));
    assert!(step.connect.is_none());
    network.peer_on(1, "ping");
    assert!(matches!(network.dispatch(ping(1)).call, Dispatch::Silent));
}

#[test]
fn a_packet_named_connect_carries_data_not_a_peer() {
    let mut network = node(1);
    network.tcp_server("a".to_string());
    network.on("connect").register("joined");
    let step = network.dispatch(Notice::Packet {
        peer: 0,
        event: "connect".to_string(),
        data: "spoof".to_string(),
    });
    match step.call {
        Dispatch::Invoke { handler, payload } => {
            assert_eq!(*handler, "joined");
            assert_eq!(payload, Argument::Data("spoof".to_string()));
        }
        _ => panic!("connect is bound"),
    }
}

#[test]
fn events_gives_the_shared_table() {
    let mut network = node(1);
    network.on("a").register("h");
    assert!(matches!(network.events().trigger("a", ()), Dispatch::Invoke { handler: &"h", .. }));
    assert!(matches!(network.events().trigger("b", ()), Dispatch::Unbound));
}

use lapdev_kube::direct_gateway::{DevboxDirectGateway, NamespacedTcpConnector, SESSION_NANOS};
use lapdev_kube::direct_handshake::{
    accept_token, check_relay_token, read_server_ack, read_token, write_token,
    DirectCredentialStore,
};
use lapdev_kube::direct_tunnel::{
    candidate_exists, collect_candidates, direct_failure, direct_target, direct_timeout,
    next_priority, quic_candidates, DirectCandidate, DirectCandidateKind, DirectTransport,
};
use lapdev_kube::host_keys::{host_key_kinds, key_algorithm, KeyAlgorithm};
use lapdev_kube::kube_rpc::{DirectChannelConfig, DirectCredential};
use lapdev_kube::net::{IpAddress, SocketAddress};
use lapdev_kube::probe::{
    body_len, build_probe_payload, mix_into, next_probe, probe_payload, MAX_BODY_LEN,
    METADATA_LEN, MIN_BODY_LEN, TLS_RECORD_HEADER_LEN,
};
use lapdev_kube::relay::{
    relay_client_addr, relay_server_addr, use_frame, DatagramQueue, FrameUse, NextDatagram, Pushed,
    Received, SocketFrame, Writable,
};
use lapdev_kube::stun::{
    binding_request, is_stun_packet, new_binding_request, parse_mapped_address, parse_stun_response,
    parse_xor_mapped_address, run_stun_probes, update_observed_addr, PacketUse, StunError,
    StunWaiters,
};
use lapdev_kube::tunnel_error::{IoCause, IoError, IoKind, TunnelError};
use lapdev_kube::tunnel_message::{
    after_connection_end, connect_response, opened, read_stream_open_request,
    read_stream_open_response, request_end, response_end, serve_request, tunnel_mode,
    write_stream_open_request, write_stream_open_response, ConnectionEnd, DirectAttempt, Protocol, StreamEnd, StreamOpenRequest, StreamStep, TcpConnector, TunnelMode,
    TunnelTarget,
};
use lapdev_kube::twoway::{
    route_inbound, wrap_outbound, Inbound, InboundStep, Outbound, TwoWayMessage,
    TwoWayTransportError,
};

fn address(last: u8, port: u16) -> SocketAddress {
    SocketAddress {
        ip: IpAddress::V4([10, 0, 0, last]),
        port,
    }
}

fn target(host: &str, port: u16) -> TunnelTarget {
    TunnelTarget::new(host.to_string(), port)
}

#[test]
fn open_requests_survive_the_wire() {
    let bytes = write_stream_open_request(Protocol::Tcp, &target("web.ns", 8080)).unwrap();
    assert_eq!(bytes, [&[0u8, 0, 6][..], &b"web.ns"[..], &[0x1f, 0x90][..]].concat());
    for n in 0..bytes.len() {
        assert!(read_stream_open_request(&bytes[..n]).unwrap().is_none());
    }
    let (request, used) = read_stream_open_request(&bytes).unwrap().unwrap();
    assert_eq!(used, bytes.len());
    assert_eq!(request.protocol, Protocol::Tcp);
    assert_eq!(request.target.address(), "web.ns:8080");
    assert!(matches!(request_end(&bytes[..1]), StreamEnd::Transport));
    assert!(matches!(request_end(&bytes[..5]), StreamEnd::ConnectionClosed));
    assert!(read_stream_open_request(&[9, 0, 0, 0, 0]).is_err());
    assert!(read_stream_open_request(&[0, 0, 1, 0xff, 0, 80]).is_err());
    let long = target(&"h".repeat(65536), 1);
    assert!(write_stream_open_request(Protocol::Udp, &long).is_err());
    assert_eq!(Protocol::from_u8(Protocol::Udp.as_u8()), Some(Protocol::Udp));
    assert_eq!(Protocol::from_u8(7), None);
}

#[test]
fn open_responses_survive_the_wire() {
    let bytes = write_stream_open_response(false, Some("no route"));
    let (response, used) = read_stream_open_response(&bytes).unwrap();
    assert_eq!(used, bytes.len());
    assert!(!response.success);
    assert_eq!(response.error, Some("no route".to_string()));
    assert!(matches!(opened(response), Err(TunnelError::Remote(m)) if m == "no route"));
    let bytes = write_stream_open_response(true, None);
    let (response, _) = read_stream_open_response(&bytes).unwrap();
    assert!(opened(response).is_ok());
    assert_eq!(bytes, [1]);
    assert!(read_stream_open_response(&[]).is_none());
    assert!(read_stream_open_response(&[0, 0, 2, 65]).is_none());
    assert!(matches!(response_end(&[0, 0]), StreamEnd::Transport));
    assert!(matches!(response_end(&[0, 0, 2, 65]), StreamEnd::ConnectionClosed));
    let silent = write_stream_open_response(false, None);
    let (response, _) = read_stream_open_response(&silent).unwrap();
    assert_eq!(response.error, Some("remote open failed".to_string()));
}

#[test]
fn servers_connect_tcp_only() {
    let request = |protocol: Protocol| StreamOpenRequest {
        protocol,
        target: target("web", 80),
    };
    assert!(matches!(
        serve_request(Ok(request(Protocol::Tcp))),
        StreamStep::Connect(t) if t.host == "web"
    ));
    assert!(matches!(
        serve_request(Ok(request(Protocol::Udp))),
        StreamStep::Refuse { reason, .. } if reason == "protocol not supported"
    ));
    assert!(matches!(
        serve_request(Err(TunnelError::ConnectionClosed)),
        StreamStep::Refuse { reason, error: TunnelError::ConnectionClosed } if reason == "bad request"
    ));
    let refused = connect_response(Some(&TunnelError::Remote("x".to_string())));
    let (response, _) = read_stream_open_response(&refused).unwrap();
    assert_eq!(response.error, Some("remote error: x".to_string()));
    assert_eq!(connect_response(None), write_stream_open_response(true, None));
    assert_eq!(TcpConnector.address(&target("web", 80)), "web:80");
    assert_eq!(tunnel_mode(DirectAttempt::Connected), TunnelMode::Direct);
    assert_eq!(tunnel_mode(DirectAttempt::Failed), TunnelMode::Relay);
    assert_eq!(tunnel_mode(DirectAttempt::NotConfigured), TunnelMode::Relay);
}

#[test]
fn tokens_survive_the_wire() {
    let bytes = write_token("secret").unwrap();
    assert_eq!(bytes, [&[0u8, 6][..], &b"secret"[..]].concat());
    assert!(read_token(&bytes[..7]).unwrap().is_none());
    assert_eq!(read_token(&bytes).unwrap(), Some(("secret".to_string(), 8)));
    assert!(read_token(&[0, 1, 0xff]).is_err());
    assert!(write_token(&"t".repeat(65536)).is_err());
    assert!(read_server_ack(1).is_ok());
    assert!(read_server_ack(0).is_err());
    assert!(check_relay_token("a", "a").is_ok());
    assert!(check_relay_token("a", "b").is_err());
}

#[test]
fn tokens_are_used_once_and_expire() {
    let mut store = DirectCredentialStore::new();
    store.insert("a".to_string(), 100, 0);
    store.insert("b".to_string(), 50, 0);
    assert!(store.contains("b", 10));
    assert!(!store.remove("b", 60, 60));
    assert!(accept_token(&mut store, "a", 60, 60).is_ok());
    assert!(accept_token(&mut store, "a", 60, 60).is_err());
    store.insert("c".to_string(), 200, 60);
    store.replace("d".to_string(), 200, 60);
    assert!(!store.contains("c", 60));
    assert!(store.contains("d", 60));
    store.cleanup_expired(300);
    assert!(!store.contains("d", 100));
}

#[test]
fn gateways_know_their_sessions() {
    let mut gateway = DevboxDirectGateway::new();
    let issued = gateway.issue_config(7, 8, "other".to_string(), 10);
    assert_eq!(
        gateway.accept(&issued.token, 20),
        Some((7, 8, "other".to_string()))
    );
    let expires = gateway.open_session("t", 1, 2, "ns".to_string(), 10);
    assert_eq!(expires, 10 + SESSION_NANOS);
    assert_eq!(gateway.accept("t", 20), Some((1, 2, "ns".to_string())));
    assert_eq!(gateway.accept("u", 20), None);
    let later = gateway.open_session("late", 3, 4, "ns".to_string(), 50);
    gateway.cleanup(20);
    assert!(gateway.credentials.contains("t", 20));
    gateway.cleanup(expires);
    assert!(!gateway.credentials.contains("t", 20));
    assert!(gateway.credentials.contains("late", later));
    assert_eq!(gateway.accept("late", expires), Some((3, 4, "ns".to_string())));
    assert_eq!(gateway.accept("t", expires + 1), None);
}

#[test]
fn connectors_stay_in_their_namespace() {
    let allowed = NamespacedTcpConnector::host_allowed;
    assert!(allowed("ns", "web.ns.svc"));
    assert!(allowed("NS", "web.ns.svc.cluster.local"));
    assert!(allowed("ns", "web.NS"));
    assert!(!allowed("ns", "web.other.svc"));
    assert!(!allowed("ns", "ns"));
    let connector = NamespacedTcpConnector::new("ns".to_string());
    assert_eq!(connector.address(&target("web.ns.svc", 80)).unwrap(), "web.ns.svc:80");
    assert!(matches!(
        connector.address(&target("web.other.svc", 80)),
        Err(TunnelError::Remote(m)) if m == "target namespace not permitted"
    ));
}

#[test]
fn candidates_are_tried_in_order() {
    let found = collect_candidates(Some(("1.2.3.4".to_string(), 5)), 6);
    assert_eq!(found.generation, Some(6));
    assert_eq!(found.candidates[0].kind, DirectCandidateKind::Public);
    assert!(candidate_exists(&found.candidates, "1.2.3.4", 5));
    assert!(!candidate_exists(&found.candidates, "1.2.3.4", 6));
    assert!(collect_candidates(None, 6).candidates.is_empty());
    let candidate = |transport: DirectTransport| DirectCandidate {
        host: "h".to_string(),
        port: 1,
        transport,
        kind: DirectCandidateKind::Private,
        priority: 0,
    };
    let mixed = vec![
        candidate(DirectTransport::Tcp),
        candidate(DirectTransport::Quic),
        candidate(DirectTransport::Quic),
    ];
    assert_eq!(quic_candidates(&mixed), [1, 2]);
    let mut counter = 0;
    assert_eq!(next_priority(&mut counter), 0);
    assert_eq!(next_priority(&mut counter), 1);
    assert!(matches!(
        direct_failure(None),
        TunnelError::Remote(m) if m == "no QUIC candidates available"
    ));
    assert!(matches!(
        direct_failure(Some(TunnelError::ConnectionClosed)),
        TunnelError::ConnectionClosed
    ));
    assert!(matches!(direct_timeout(), TunnelError::Transport(e) if e.kind == IoKind::TimedOut));
    let mut config = DirectChannelConfig {
        credential: DirectCredential {
            token: "t".to_string(),
            expires_at: 1,
        },
        server_certificate: None,
        stun_observed_addr: None,
    };
    assert!(matches!(
        direct_target(&config),
        Err(TunnelError::Remote(m)) if m == "direct server certificate missing"
    ));
    config.server_certificate = Some(vec![1]);
    assert!(matches!(
        direct_target(&config),
        Err(TunnelError::Remote(m)) if m == "direct server STUN address unavailable"
    ));
    config.stun_observed_addr = Some(address(1, 2));
    assert_eq!(direct_target(&config).unwrap(), (vec![1], address(1, 2)));
}

const TRANSACTION: [u8; 12] = [1, 2, 3, 4, 5, 6, 7, 8, 9, 10, 11, 12];

fn stun_response(attributes: &[u8]) -> Vec<u8> {
    let mut out = vec![1, 1, 0, attributes.len() as u8, 0x21, 0x12, 0xa4, 0x42];
    out.extend_from_slice(&TRANSACTION);
    out.extend_from_slice(attributes);
    out
}

#[test]
fn stun_answers_are_read() {
    let request = binding_request(&TRANSACTION);
    assert_eq!(&request[..8], &[0, 1, 0, 0, 0x21, 0x12, 0xa4, 0x42]);
    assert_eq!(&request[8..], &TRANSACTION);
    assert!(is_stun_packet(&request));
    // 192.0.2.1:32853, once as it is and once mixed with the cookie.
    let plain = [0, 1, 0x80, 0x55, 192, 0, 2, 1];
    let mixed = [0, 1, 0xa1, 0x47, 0xe1, 0x12, 0xa6, 0x43];
    let expected = SocketAddress {
        ip: IpAddress::V4([192, 0, 2, 1]),
        port: 32853,
    };
    assert_eq!(parse_mapped_address(&plain), Some(expected));
    assert_eq!(parse_xor_mapped_address(&mixed, &TRANSACTION), Some(expected));
    let attribute = [&[0u8, 0x20, 0, 8][..], &mixed[..]].concat();
    let answer = stun_response(&attribute);
    assert_eq!(parse_stun_response(&answer, &TRANSACTION), Ok(Some(expected)));
    assert_eq!(
        parse_stun_response(&stun_response(&[]), &TRANSACTION),
        Ok(None)
    );
    let failure = |data: &[u8], id: &[u8; 12]| parse_stun_response(data, id).unwrap_err();
    assert_eq!(failure(&answer[..10], &TRANSACTION), StunError::TooShort);
    assert_eq!(failure(&answer[..24], &TRANSACTION), StunError::Truncated);
    assert_eq!(failure(&answer, &[0; 12]), StunError::MismatchedTransaction);
    assert_eq!(failure(&request, &TRANSACTION), StunError::UnexpectedType);
    let mut odd = answer.clone();
    odd[4] = 0;
    assert_eq!(failure(&odd, &TRANSACTION), StunError::InvalidCookie);
    let mut long = answer.clone();
    long[23] = 9;
    assert_eq!(failure(&long, &TRANSACTION), StunError::AttributeTooLong);
    assert_eq!(StunError::TooShort.message(), "STUN response too short");
}

#[test]
fn ipv6_addresses_are_mixed_with_the_transaction() {
    let mut value = vec![0, 2, 0x21, 0x12 ^ 80];
    value.extend_from_slice(&[0x21, 0x12, 0xa4, 0x42]);
    value.extend_from_slice(&TRANSACTION);
    assert_eq!(
        parse_xor_mapped_address(&value, &TRANSACTION),
        Some(SocketAddress {
            ip: IpAddress::V6 {
                octets: [0; 16],
                flow_info: 0,
                scope_id: 0,
            },
            port: 80
        })
    );
}

#[test]
fn stun_packets_are_taken_out() {
    let mut waiters = StunWaiters::new();
    assert!(!waiters.register(TRANSACTION.to_vec()));
    assert!(waiters.register(TRANSACTION.to_vec()));
    let answer = stun_response(&[]);
    let data = vec![0x40, 1, 2];
    let (kept, answers) = waiters.filter_stun_packets(vec![data.clone(), answer.clone()]);
    assert_eq!(kept, [data.clone()]);
    assert_eq!(answers, [(TRANSACTION.to_vec(), answer.clone())]);
    assert!(matches!(waiters.try_handle_stun(&answer), PacketUse::Dropped));
    assert!(matches!(waiters.try_handle_stun(&data), PacketUse::Forward));
    assert!(!waiters.cancel(&TRANSACTION));
    assert_eq!(
        run_stun_probes(&vec![None, Some(address(1, 1)), Some(address(2, 2))]),
        Some(address(1, 1))
    );
    let mut observed = None;
    assert!(update_observed_addr(&mut observed, address(1, 1)));
    assert!(!update_observed_addr(&mut observed, address(1, 1)));
    assert!(update_observed_addr(&mut observed, address(2, 1)));
}

#[test]
fn probes_look_like_records() {
    let payload = build_probe_payload(&address(1, 1), &address(2, 2), 1_700_000_000);
    let len = payload.len();
    assert!(len > 5);
    assert_eq!(payload[0], 0x17);
    assert_eq!(&payload[1..3], &[0x03, 0x03]);
    let declared_len = u16::from_be_bytes([payload[3], payload[4]]) as usize;
    assert_eq!(declared_len, len - 5);
    assert!(payload[5..len].iter().any(|byte| *byte != 0));
    assert!((MIN_BODY_LEN..=MAX_BODY_LEN).contains(&(len - TLS_RECORD_HEADER_LEN)));
    let again = build_probe_payload(&address(1, 1), &address(2, 2), 1_700_000_000);
    assert_ne!(payload, again);
}

#[test]
fn probes_carry_their_metadata() {
    let nonce: Vec<u8> = (0..16).collect();
    let payload = probe_payload(&address(1, 1), &address(2, 2), vec![0; 48], &nonce, 0x01020304);
    assert_eq!(payload.len(), 53);
    assert!(payload[5..53 - METADATA_LEN].iter().all(|byte| *byte == 0));
    assert_eq!(
        &payload[53 - METADATA_LEN..],
        &[
            1, 0, 1, 2, 3, 4, 0, 1, 0, 2, 0, 1, 2, 3, 4, 5, 6, 7, 8, 9, 0xf5, 0xf4, 6, 13, 14, 14
        ]
    );
    let mixed = mix_into(vec![0xff; 4], &[0x0f, 0xf0]);
    assert_eq!(mixed, [0xff, 0xff, 0xf0, 0x0f]);
    assert_eq!(mix_into(vec![1], &[1, 2]), [1]);
    assert_eq!(body_len(0), MIN_BODY_LEN);
    assert_eq!(next_probe(0), Some(200));
    assert_eq!(next_probe(6), None);
}

#[test]
fn datagrams_leave_in_order() {
    let mut queue = DatagramQueue::new(2);
    assert!(queue.enqueue(vec![1]).is_ok());
    assert!(queue.try_send(false, vec![2]).is_ok());
    assert!(matches!(queue.poll_writable(), Writable::Wait));
    assert_eq!(queue.enqueue(vec![3]).unwrap_err().kind, IoKind::WouldBlock);
    assert_eq!(queue.try_send(true, vec![3]).unwrap_err().kind, IoKind::InvalidInput);
    assert!(matches!(queue.push(vec![3]), Pushed::Wait(d) if d == [3]));
    assert!(matches!(queue.next_datagram(), NextDatagram::Ready(d) if d == [1]));
    assert!(queue.has_capacity());
    queue.close();
    assert!(queue.is_closed());
    assert_eq!(queue.enqueue(vec![4]).unwrap_err().kind, IoKind::ConnectionReset);
    assert!(matches!(queue.push(vec![4]), Pushed::Failed(_)));
    assert!(matches!(queue.poll_recv(None), Received::Failed(e) if e.kind == IoKind::InvalidInput));
    assert!(matches!(queue.poll_recv(Some(0)), Received::Failed(e) if e.kind == IoKind::InvalidData));
    assert!(matches!(queue.next_datagram(), NextDatagram::Finished));
    assert!(matches!(queue.poll_recv(Some(9)), Received::Failed(e) if e.kind == IoKind::ConnectionReset));
    assert_ne!(relay_client_addr(), relay_server_addr());
}

#[test]
fn sockets_carry_binary_frames() {
    assert!(matches!(
        use_frame(SocketFrame::Binary(vec![1]), true),
        FrameUse::Deliver(d) if d == [1]
    ));
    assert!(matches!(use_frame(SocketFrame::Close, true), FrameUse::End));
    assert!(matches!(use_frame(SocketFrame::Close, false), FrameUse::Skip));
    assert!(matches!(use_frame(SocketFrame::Other, true), FrameUse::Skip));
    assert!(matches!(use_frame(SocketFrame::Ended, true), FrameUse::End));
    assert!(matches!(
        use_frame(SocketFrame::Failed("x".to_string()), true),
        FrameUse::Fail(t) if t == "x"
    ));
}

#[test]
fn closed_connections_are_no_failure() {
    assert!(after_connection_end(ConnectionEnd::ApplicationClosed).is_ok());
    assert!(after_connection_end(ConnectionEnd::ConnectionClosed).is_ok());
    assert!(matches!(
        after_connection_end(ConnectionEnd::Other("reset".to_string())),
        Err(TunnelError::Transport(e)) if e.text == "reset"
    ));
}

#[test]
fn the_two_halves_meet() {
    let call: TwoWayMessage<u8, &str> = wrap_outbound(Outbound::FromClient(7));
    assert!(matches!(
        route_inbound(Inbound::Message(call)),
        InboundStep::ToServer(7)
    ));
    let answer: TwoWayMessage<u8, &str> = wrap_outbound(Outbound::FromServer("pong"));
    assert!(matches!(
        route_inbound(Inbound::Message(answer)),
        InboundStep::ToClient("pong")
    ));
    let broken = IoError {
        kind: IoKind::BrokenPipe,
        text: "gone".to_string(),
        cause: IoCause::Plain,
    };
    assert!(matches!(
        route_inbound::<u8, u8>(Inbound::Failed(broken)),
        InboundStep::Fail { server, client } if server.text == "gone" && client.kind == IoKind::BrokenPipe
    ));
    assert!(matches!(
        route_inbound::<u8, u8>(Inbound::Ended),
        InboundStep::Stop
    ));
    assert!(!TwoWayTransportError::Closed.message().is_empty());
}

#[test]
fn host_keys_have_algorithms() {
    assert_eq!(host_key_kinds(), ["host-ed25519", "host-rsa"]);
    assert_eq!(key_algorithm("host-rsa"), Ok(KeyAlgorithm::RsaSha512));
    assert_eq!(
        key_algorithm("host-dsa"),
        Err("don't support host-dsa host key".to_string())
    );
}

#[test]
fn fresh_binding_requests_carry_their_transaction() {
    let (first, request) = new_binding_request();
    assert_eq!(request[..8], [0, 1, 0, 0, 0x21, 0x12, 0xa4, 0x42]);
    assert_eq!(request[8..], first);
    assert_eq!(request, binding_request(&first));
    let (second, _) = new_binding_request();
    assert_ne!(first, second);
}

#[test]
fn scopes_tell_addresses_apart() {
    let scoped = |flow_info: u32, scope_id: u32| SocketAddress {
        ip: IpAddress::V6 {
            octets: [0xfe, 0x80, 0, 0, 0, 0, 0, 0, 0, 0, 0, 0, 0, 0, 0, 1],
            flow_info,
            scope_id,
        },
        port: 9,
    };
    assert!(scoped(1, 2).same(&scoped(1, 2)));
    assert!(!scoped(1, 2).same(&scoped(1, 3)));
    assert!(!scoped(1, 2).same(&scoped(0, 2)));
    let mut observed = Some(scoped(0, 2));
    assert!(!update_observed_addr(&mut observed, scoped(0, 2)));
    assert!(update_observed_addr(&mut observed, scoped(0, 3)));
    assert_eq!(observed, Some(scoped(0, 3)));
}

use kytan::engine::{
    client_build_frame, client_handle_datagram, parse_response, request_frame,
    server_handle_datagram, server_handle_tun, tun_attempt_ids, HandshakeError, SockAction,
};
use kytan::msg::{decode, encode, Message};
use kytan::session::{PeerAddr, Server};

fn peer(ip: u128, port: u16) -> PeerAddr {
    PeerAddr { is_v6: false, ip, port }
}

/// A minimal IPv4 packet: a 20-byte header whose destination is
/// 10.10.10.<dst_last>, followed by the payload.
fn ipv4_packet(dst_last: u8, payload: &[u8]) -> Vec<u8> {
    let mut p = vec![0u8; 20];
    p[0] = 0x45;
    p[16] = 10;
    p[17] = 10;
    p[18] = 10;
    p[19] = dst_last;
    p.extend_from_slice(payload);
    p
}

fn snap_compress(p: &[u8]) -> Vec<u8> {
    snap::raw::Encoder::new().compress_vec(p).unwrap()
}

#[test]
fn handshake_round_trip() {
    let mut srv = Server::new();
    let client_addr = peer(0x0A000002, 50000);
    // client opens; server answers from its state
    let req = request_frame();
    let act = server_handle_datagram(&mut srv, 0, &req, client_addr);
    let reply = match act {
        SockAction::Reply { datagram } => datagram,
        _ => panic!("request must draw a reply"),
    };
    let (id, token) = parse_response(&reply).unwrap();
    assert_eq!(id, 253);
    let e = srv.lookup(253).unwrap();
    assert_eq!(e.token, token);
    assert_eq!(e.peer, client_addr);
}

#[test]
fn parse_response_rejects_other_variants() {
    assert_eq!(parse_response(&encode(&Message::Request)), Err(HandshakeError::UnexpectedVariant));
    let data = encode(&Message::Data { id: 1, token: 2, data: vec![3] });
    assert_eq!(parse_response(&data), Err(HandshakeError::UnexpectedVariant));
    assert_eq!(parse_response(&[9, 9]), Err(HandshakeError::Malformed));
    let resp = encode(&Message::Response { id: 5, token: 77 });
    assert_eq!(parse_response(&resp), Ok((5, 77)));
}

#[test]
fn data_forwarding_client_to_server() {
    let mut srv = Server::new();
    let client_addr = peer(0x0A000002, 50000);
    let token = 0xDEADBEEFCAFEBABE;
    assert_eq!(srv.accept_request(0, client_addr, token), Some(253));

    let p = ipv4_packet(1, b"traffic towards the server");
    let frame = client_build_frame(253, token, &p);
    match server_handle_datagram(&mut srv, 0, &frame, client_addr) {
        SockAction::TunWrite { packet } => assert_eq!(packet, p),
        _ => panic!("matching token must reach the TUN device"),
    }
    // no state change
    assert_eq!(srv.lookup(253).unwrap().token, token);
}

#[test]
fn data_forwarding_server_to_client() {
    let mut srv = Server::new();
    let client_addr = peer(0x0A000002, 50000);
    let token = 0xDEADBEEFCAFEBABE;
    assert_eq!(srv.accept_request(0, client_addr, token), Some(253));

    let q = ipv4_packet(253, b"traffic towards the client");
    let (dg, dst) = server_handle_tun(&srv, &q).unwrap();
    assert_eq!(dst, client_addr);
    assert_eq!(client_handle_datagram(token, &dg), Some(q));
}

#[test]
fn token_mismatch_drop_server() {
    let mut srv = Server::new();
    let client_addr = peer(0x0A000002, 50000);
    assert_eq!(srv.accept_request(0, client_addr, 0xDEADBEEFCAFEBABE), Some(253));

    let q = ipv4_packet(253, b"forged");
    let crafted = encode(&Message::Data { id: 253, token: 0, data: snap_compress(&q) });
    match server_handle_datagram(&mut srv, 0, &crafted, client_addr) {
        SockAction::Ignore => {}
        _ => panic!("mismatched token must never reach the TUN device"),
    }
    // session table unchanged
    let e = srv.lookup(253).unwrap();
    assert_eq!(e.token, 0xDEADBEEFCAFEBABE);
}

#[test]
fn token_mismatch_drop_client() {
    let q = ipv4_packet(2, b"forged");
    let dg = encode(&Message::Data { id: 2, token: 1, data: snap_compress(&q) });
    assert_eq!(client_handle_datagram(2, &dg), None);
    assert_eq!(client_handle_datagram(1, &dg), Some(q));
}

#[test]
fn client_drops_control_variants_and_noise() {
    assert_eq!(client_handle_datagram(1, &encode(&Message::Request)), None);
    assert_eq!(client_handle_datagram(1, &encode(&Message::Response { id: 9, token: 1 })), None);
    assert_eq!(client_handle_datagram(1, &[0xFF, 0xEE]), None);
}

#[test]
fn unknown_id_drop_server_sock() {
    let mut srv = Server::new();
    let q = ipv4_packet(7, b"nobody");
    let dg = encode(&Message::Data { id: 7, token: 0, data: snap_compress(&q) });
    match server_handle_datagram(&mut srv, 0, &dg, peer(1, 1)) {
        SockAction::Ignore => {}
        _ => panic!("unknown id must be dropped"),
    }
}

#[test]
fn unknown_id_drop_server_tun() {
    let mut srv = Server::new();
    assert_eq!(srv.accept_request(0, peer(1, 1), 5), Some(253));
    // octet 19 names client 7, which has no session
    let q = ipv4_packet(7, b"nobody");
    assert!(server_handle_tun(&srv, &q).is_none());
}

#[test]
fn short_packet_rejected_on_server_tun() {
    let srv = Server::new();
    let short = vec![0u8; 19];
    assert!(server_handle_tun(&srv, &short).is_none());
}

#[test]
fn corrupt_payload_dropped() {
    let mut srv = Server::new();
    let client_addr = peer(0x0A000002, 50000);
    assert_eq!(srv.accept_request(0, client_addr, 5), Some(253));
    // a matching token but a payload no compressor produced
    let dg = encode(&Message::Data { id: 253, token: 5, data: vec![0xFF; 40] });
    match server_handle_datagram(&mut srv, 0, &dg, client_addr) {
        SockAction::Ignore => {}
        _ => panic!("an undecompressable payload must be dropped"),
    }
}

#[test]
fn compression_is_real() {
    let p = ipv4_packet(1, &[0u8; 800]);
    let frame = client_build_frame(2, 5, &p);
    match decode(&frame) {
        Some(Message::Data { id, token, data }) => {
            assert_eq!(id, 2);
            assert_eq!(token, 5);
            // the payload is the Snappy compression, not the packet itself
            assert_eq!(data, snap_compress(&p));
            assert_ne!(data, p);
            assert!(data.len() < p.len());
            let back = snap::raw::Decoder::new().decompress_vec(&data).unwrap();
            assert_eq!(back, p);
        }
        _ => panic!("the frame must decode as a Data message"),
    }
}

#[test]
fn tun_attempt_plan() {
    let ids = tun_attempt_ids();
    assert_eq!(ids.len(), 255);
    for (i, id) in ids.iter().enumerate() {
        assert_eq!(*id as usize, i);
    }
    assert_eq!(*ids.last().unwrap(), 254);
}

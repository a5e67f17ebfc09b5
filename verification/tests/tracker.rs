use seedchamp_engine::net::{Ip, PeerAddr};
use seedchamp_engine::tracker::dns::resolve_ipv4;
use seedchamp_engine::tracker::http::{
    build_announce_url, effective_user_agent, parse_announce_response, reply_body,
    tracker_user_agent, AnnounceRequest,
};
use seedchamp_engine::tracker::limit::{tracker_host_key, HostLimiter};
use seedchamp_engine::tracker::udp::{
    announce_packet, build_connect_packet, parse_announce_response_udp, parse_connect_response,
    parse_udp_tracker_url, UdpExchange, UdpNext, ACTION_ANNOUNCE, ACTION_CONNECT, ACTION_ERROR,
};
use seedchamp_engine::tracker::{
    announce_scheme, generate_tracker_key, key_of_draw, TrackerScheme,
};

#[test]
fn url_encodes_binary() {
    let req = AnnounceRequest {
        announce_url: "http://tracker.example/announce".into(),
        infohash: [
            0x00, 0xff, 0x20, 0x00, 0x00, 0x00, 0x00, 0x00, 0x00, 0x00, 0x00, 0x00, 0x00, 0x00,
            0x00, 0x00, 0x00, 0x00, 0x00, 0x01,
        ],
        peer_id: *b"-sc0001-\0\0\0\0\0\0\0\0\0\0\0\0",
        port: 6881,
        uploaded: 0,
        downloaded: 0,
        left: 0,
        event: Some("started"),
        numwant: 50,
        user_agent: tracker_user_agent().into(),
        key: 0x00ab_cdef,
    };
    let u = build_announce_url(&req).unwrap();
    assert!(u.contains("info_hash=%00%FF%20"));
    assert!(u.contains("event=started"));
    assert!(u.contains("compact=1"));
    assert!(u.contains("key=00abcdef"), "{u}");
}

fn blank_request() -> AnnounceRequest {
    AnnounceRequest {
        announce_url: "http://x/".into(),
        infohash: [0u8; 20],
        peer_id: [0u8; 20],
        port: 1,
        uploaded: 0,
        downloaded: 0,
        left: 0,
        event: None,
        numwant: 50,
        user_agent: String::new(),
        key: 0,
    }
}

#[test]
fn effective_ua_default_and_override() {
    let mut req = blank_request();
    assert_eq!(effective_user_agent(&req), "seedchamp/1");
    assert_eq!(effective_user_agent(&req), tracker_user_agent());
    req.user_agent = "  ".into();
    assert_eq!(effective_user_agent(&req), tracker_user_agent());
    req.user_agent = "seedchamp/9".into();
    assert_eq!(effective_user_agent(&req), "seedchamp/9");
}

#[test]
fn default_ua_is_major_only() {
    assert_eq!(tracker_user_agent(), "seedchamp/1");
    assert!(!tracker_user_agent().contains('.'));
}

#[test]
fn parse_compact_peers() {
    // interval=1800, peers = 1.2.3.4:6881
    let mut body = b"d8:intervali1800e5:peers6:".to_vec();
    body.extend_from_slice(&[1, 2, 3, 4, 0x1a, 0xe1]);
    body.push(b'e');
    let r = parse_announce_response(&body).unwrap();
    assert_eq!(r.interval, 1800);
    assert_eq!(r.peers.len(), 1);
    assert_eq!(r.peers[0], PeerAddr::V4 { ip: 0x0102_0304, port: 6881 });
    assert!(r.complete.is_none());
    assert!(r.incomplete.is_none());
}

#[test]
fn parse_complete_incomplete() {
    // interval + complete + incomplete, no peers
    let body = b"d8:intervali900e8:completei42e10:incompletei7ee";
    let r = parse_announce_response(body).unwrap();
    assert_eq!(r.interval, 900);
    assert_eq!(r.complete, Some(42));
    assert_eq!(r.incomplete, Some(7));
    assert!(r.peers.is_empty());
}

#[test]
fn a_failure_reason_is_reported() {
    let r = parse_announce_response(b"d14:failure reason9:not founde").unwrap();
    assert_eq!(r.failure.as_deref(), Some("not found"));
    assert!(parse_announce_response(b"not bencode").is_err());
}

#[test]
fn schemes_of_addresses() {
    assert_eq!(announce_scheme(" UDP://t:1/ ").unwrap(), TrackerScheme::Udp);
    assert_eq!(announce_scheme("https://t/").unwrap(), TrackerScheme::Http);
    assert_eq!(
        announce_scheme("wss://t/").unwrap_err().to_string(),
        "unsupported tracker scheme: wss://t/"
    );
}

#[test]
fn keys_are_drawn() {
    let a = generate_tracker_key();
    let b = generate_tracker_key();
    let c = generate_tracker_key();
    assert!(a != 0 && b != 0 && c != 0);
    assert!(a != b || b != c);
}

#[test]
fn parse_url() {
    let (h, p) = parse_udp_tracker_url("udp://tracker.opentrackr.org:1337/announce").unwrap();
    assert_eq!(h, "tracker.opentrackr.org");
    assert_eq!(p, 1337);
}

#[test]
fn connect_packet_roundtrip_parse() {
    let tid = 0xAABB_CCDD;
    let pkt = build_connect_packet(tid);
    // Fake a connect response: action=0, tid, conn_id
    let mut resp = [0u8; 16];
    resp[0..4].copy_from_slice(&ACTION_CONNECT.to_be_bytes());
    resp[4..8].copy_from_slice(&tid.to_be_bytes());
    resp[8..16].copy_from_slice(&0x1122_3344_5566_7788u64.to_be_bytes());
    let id = parse_connect_response(&resp, 16, tid).unwrap();
    assert_eq!(id, 0x1122_3344_5566_7788);
    assert_eq!(pkt.len(), 16);
    assert_eq!(&pkt[12..16], &tid.to_be_bytes());
}

#[test]
fn foreign_and_short_udp_replies_are_refused() {
    let tid = 7u32;
    let mut resp = [0u8; 16];
    resp[4..8].copy_from_slice(&8u32.to_be_bytes());
    assert!(parse_connect_response(&resp, 16, tid).is_err());
    resp[4..8].copy_from_slice(&tid.to_be_bytes());
    assert!(parse_connect_response(&resp, 15, tid).is_err());
    assert!(parse_connect_response(&resp, 16, tid).is_ok());
    resp[0..4].copy_from_slice(&ACTION_ANNOUNCE.to_be_bytes());
    assert!(parse_connect_response(&resp, 16, tid).is_err());
}

fn udp_announce_reply(tid: u32, peers: &[[u8; 6]]) -> Vec<u8> {
    let mut b = Vec::new();
    b.extend_from_slice(&ACTION_ANNOUNCE.to_be_bytes());
    b.extend_from_slice(&tid.to_be_bytes());
    b.extend_from_slice(&900u32.to_be_bytes());
    b.extend_from_slice(&3u32.to_be_bytes());
    b.extend_from_slice(&5u32.to_be_bytes());
    for p in peers {
        b.extend_from_slice(p);
    }
    b
}

#[test]
fn udp_announce_reply_is_read() {
    let b = udp_announce_reply(9, &[[1, 2, 3, 4, 0x1a, 0xe1], [9, 9, 9, 9, 0, 0]]);
    let r = parse_announce_response_udp(&b, b.len(), 9).unwrap();
    assert_eq!(r.interval, 900);
    assert_eq!(r.incomplete, Some(3));
    assert_eq!(r.complete, Some(5));
    // A peer without a port is left out.
    assert_eq!(r.peers, vec![PeerAddr::V4 { ip: 0x0102_0304, port: 6881 }]);
    let mut e = Vec::new();
    e.extend_from_slice(&ACTION_ERROR.to_be_bytes());
    e.extend_from_slice(&9u32.to_be_bytes());
    e.extend_from_slice(b"go away, please");
    let r = parse_announce_response_udp(&e, e.len(), 9);
    let text = match r {
        Ok(a) => a.failure.unwrap(),
        Err(e) => e.to_string(),
    };
    assert!(text.contains("go away"), "{text}");
}

#[test]
fn udp_exchange_connects_then_announces() {
    let req = blank_request();
    let (mut x, first) = UdpExchange::start(2, 11);
    let UdpNext::Send(packet) = first else {
        panic!("expected a packet, got {first:?}");
    };
    assert_eq!(packet, build_connect_packet(11));
    let mut resp = vec![0u8; 16];
    resp[4..8].copy_from_slice(&11u32.to_be_bytes());
    resp[8..16].copy_from_slice(&0xAAu64.to_be_bytes());
    let next = x.received(&req, &resp, 16, 12, 5);
    let UdpNext::Send(packet) = next else {
        panic!("expected a packet, got {next:?}");
    };
    assert_eq!(packet, announce_packet(0xAA, 12, &req, 5));
    assert_eq!(packet.len(), 98);
    let b = udp_announce_reply(12, &[[1, 2, 3, 4, 0x1a, 0xe1]]);
    match x.received(&req, &b, b.len(), 13, 5) {
        UdpNext::Done(a) => assert_eq!(a.peers.len(), 1),
        other => panic!("expected the reply, got {other:?}"),
    }
}

#[test]
fn host_key_http_and_udp() {
    assert_eq!(tracker_host_key("http://Tracker.Example/announce"), "tracker.example:80");
    assert_eq!(tracker_host_key("https://t.example:443/a"), "t.example:443");
    assert_eq!(tracker_host_key("udp://open.tracker:1337/announce"), "open.tracker:1337");
}

#[test]
fn unlimited_when_zero() {
    let mut lim = HostLimiter::new(0);
    assert!(lim.acquire("h:1").is_some());
    assert!(lim.acquire("h:1").is_some());
    assert!(lim.acquire("h:1").is_some());
}

#[test]
fn limiter_caps_concurrent() {
    let mut lim = HostLimiter::new(2);
    let mut held = Vec::new();
    let mut peak = 0;
    let mut done = 0;
    let mut waiting = 8;
    while done < 8 {
        if waiting > 0 {
            if let Some(p) = lim.acquire("host.example:80") {
                held.push(p);
                waiting -= 1;
                peak = peak.max(held.len());
                continue;
            }
        }
        let p = held.pop().expect("a permit is held");
        lim.release(p);
        done += 1;
    }
    assert!(peak <= 2, "peak concurrent was {peak}");
    assert_eq!(peak, 2);
    // Other hosts are not held up.
    let a = lim.acquire("a:1").expect("a");
    assert!(lim.acquire("b:1").is_some());
    lim.release(a);
}

#[test]
fn permits_are_handed_back_in_any_order() {
    let mut lim = HostLimiter::new(2);
    let a = lim.acquire("a:1").expect("a");
    let b = lim.acquire("b:1").expect("b");
    let c = lim.acquire("a:1").expect("a");
    assert!(lim.acquire("a:1").is_none());
    lim.release(a);
    let d = lim.acquire("a:1").expect("a");
    assert!(lim.acquire("a:1").is_none());
    for p in [b, c, d] {
        lim.release(p);
    }
    for host in ["a:1", "b:1"] {
        assert!(lim.acquire(host).is_some());
        assert!(lim.acquire(host).is_some());
        assert!(lim.acquire(host).is_none());
    }
}

#[test]
fn literal_ipv4_skips_dns() {
    let addrs = resolve_ipv4("127.0.0.1", 1337, 2, Some(Ip::V4(0x7f00_0001)), &[]).expect("lit");
    assert_eq!(addrs.len(), 1);
    assert_eq!(addrs[0], PeerAddr::V4 { ip: 0x7f00_0001, port: 1337 });
}

#[test]
fn resolved_addresses_are_v4_and_few() {
    let found = [Ip::V6(1), Ip::V4(1), Ip::V4(2), Ip::V4(3)];
    let addrs = resolve_ipv4("h", 9, 2, None, &found).unwrap();
    assert_eq!(addrs, vec![PeerAddr::V4 { ip: 1, port: 9 }, PeerAddr::V4 { ip: 2, port: 9 }]);
    assert!(resolve_ipv4("h", 9, 2, None, &[Ip::V6(1)]).is_err());
}

#[test]
fn zero_gives_no_key() {
    assert_eq!(key_of_draw(0), None);
    assert_eq!(key_of_draw(9), Some(9));
}

#[test]
fn a_refusal_is_told_with_the_head_of_its_reply() {
    assert_eq!(reply_body(true, "200 OK", vec![1, 2]).unwrap(), vec![1, 2]);
    let e = reply_body(false, "404 Not Found", b"no \xff such".to_vec()).unwrap_err();
    assert_eq!(e.to_string(), "HTTP status 404 Not Found: no \u{fffd} such");
    let e = reply_body(false, "500", vec![b'x'; 201]).unwrap_err();
    assert_eq!(e.to_string(), format!("HTTP status 500: {}", "x".repeat(200)));
}

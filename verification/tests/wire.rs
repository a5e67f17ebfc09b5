use seedchamp_engine::bitfield::apply_have_all_none;
use seedchamp_engine::wire::fast::{add_candidates, generate_allowed_fast_set};
use seedchamp_engine::wire::messages::{
    encode_extended_handshake, encode_handshake, encode_message, handshake_supports_extensions,
    handshake_supports_fast, looks_like_bt_handshake, parse_handshake, parse_message,
    parse_piece_header, Message, ParsedMessage, EXT_HANDSHAKE, LTEP_REQQ, MAX_MESSAGE_LENGTH,
    MSG_BITFIELD, MSG_CHOKE, MSG_PIECE, SIZEOF_PIECE,
};
use seedchamp_engine::wire::peer_id::{identify_peer_id, ltep_client_version, prefer_client_label};

#[test]
fn handshake_roundtrip() {
    let ih = [1u8; 20];
    let pid = [2u8; 20];
    let hs = encode_handshake(&ih, &pid);
    let (a, b) = parse_handshake(&hs).unwrap();
    assert_eq!(a, ih);
    assert_eq!(b, pid);
    assert!(looks_like_bt_handshake(&hs));
    assert!(handshake_supports_extensions(&hs), "we advertise BEP 10");
    assert!(handshake_supports_fast(&hs), "we advertise BEP 6 Fast");
}

#[test]
fn fast_messages_roundtrip() {
    for m in [
        Message::HaveAll,
        Message::HaveNone,
        Message::SuggestPiece(42),
        Message::AllowedFast(7),
        Message::RejectRequest { index: 1, begin: 0, length: 16384 },
    ] {
        let enc = encode_message(&m);
        let (parsed, n) = parse_message(&enc).unwrap().unwrap();
        assert_eq!(n, enc.len());
        let ParsedMessage::Msg(ref got) = parsed else {
            panic!("expected Msg, got {parsed:?}");
        };
        match (&m, got) {
            (Message::HaveAll, Message::HaveAll) => {}
            (Message::HaveNone, Message::HaveNone) => {}
            (Message::SuggestPiece(a), Message::SuggestPiece(b)) => assert_eq!(a, b),
            (Message::AllowedFast(a), Message::AllowedFast(b)) => assert_eq!(a, b),
            (
                Message::RejectRequest { index: i1, begin: b1, length: l1 },
                Message::RejectRequest { index: i2, begin: b2, length: l2 },
            ) => {
                assert_eq!(i1, i2);
                assert_eq!(b1, b2);
                assert_eq!(l1, l2);
            }
            _ => panic!("mismatch {m:?} vs {got:?}"),
        }
    }
}

#[test]
fn extended_handshake_reqq_p_e() {
    let enc = encode_extended_handshake("seedchamp 0.1.0", 6881, Some(0));
    let (parsed, n) = parse_message(&enc).unwrap().unwrap();
    assert_eq!(n, enc.len());
    match parsed {
        ParsedMessage::Msg(Message::Extended { ext_id, payload }) => {
            assert_eq!(ext_id, EXT_HANDSHAKE);
            let s = std::str::from_utf8(&payload).unwrap();
            assert!(s.contains("reqq"), "{s}");
            assert!(s.contains(&LTEP_REQQ.to_string()), "{s}");
            assert!(s.contains("1:pi6881e"), "{s}");
            assert!(s.contains("1:ei0e"), "{s}");
            assert!(s.contains("seedchamp 0.1.0"), "{s}");
            // Sorted key order: e, m, p, reqq, v
            let e_at = s.find("1:e").expect("e");
            let m_at = s.find("1:m").expect("m");
            let p_at = s.find("1:p").expect("p");
            assert!(e_at < m_at && m_at < p_at, "{s}");
        }
        other => panic!("expected Extended, got {other:?}"),
    }
    // encryption off: no e key
    let plain = encode_extended_handshake("seedchamp 0.1.0", 51413, None);
    let (parsed, _) = parse_message(&plain).unwrap().unwrap();
    match parsed {
        ParsedMessage::Msg(Message::Extended { payload, .. }) => {
            let s = std::str::from_utf8(&payload).unwrap();
            assert!(!s.contains("1:ei"), "{s}");
            assert!(s.contains("1:pi51413e"), "{s}");
        }
        other => panic!("expected Extended, got {other:?}"),
    }
}

#[test]
fn request_roundtrip() {
    let m = Message::Request { index: 3, begin: 16384, length: 16384 };
    let enc = encode_message(&m);
    let (parsed, n) = parse_message(&enc).unwrap().unwrap();
    assert_eq!(n, enc.len());
    match parsed {
        ParsedMessage::Msg(Message::Request { index, begin, length }) => {
            assert_eq!(index, 3);
            assert_eq!(begin, 16384);
            assert_eq!(length, 16384);
        }
        _ => panic!("wrong msg"),
    }
}

#[test]
fn piece_parse_borrows_without_alloc() {
    let block = vec![0xABu8; 16384];
    let m = Message::Piece { index: 9, begin: 32768, block: block.clone() };
    let enc = encode_message(&m);
    let (parsed, n) = parse_message(&enc).unwrap().unwrap();
    assert_eq!(n, enc.len());
    match parsed {
        ParsedMessage::Piece { index, begin, block: b } => {
            assert_eq!(index, 9);
            assert_eq!(begin, 32768);
            assert_eq!(b, block.as_slice());
            let start = b.as_ptr() as usize;
            let enc_start = enc.as_ptr() as usize;
            assert!(start >= enc_start && start < enc_start + enc.len());
        }
        other => panic!("expected ParsedMessage::Piece, got {other:?}"),
    }
}

#[test]
fn rejects_oversized_length_without_full_body() {
    // Only the 4-byte length prefix is present; body never arrives.
    let mut hdr = (MAX_MESSAGE_LENGTH as u32 + 1).to_be_bytes().to_vec();
    assert!(parse_message(&hdr).unwrap_err().to_string().contains("exceeds max"));

    // Exactly at the cap with incomplete body: need more data, not error.
    hdr = (MAX_MESSAGE_LENGTH as u32).to_be_bytes().to_vec();
    assert!(matches!(parse_message(&hdr), Ok(None)));

    // Just over cap with a full (fake) frame still errors on length first.
    let over = MAX_MESSAGE_LENGTH as u32 + 1;
    let mut big = over.to_be_bytes().to_vec();
    big.push(MSG_CHOKE);
    big.resize(4 + over as usize, 0);
    assert!(parse_message(&big).unwrap_err().to_string().contains("exceeds max"));
}

#[test]
fn accepts_message_at_max_length() {
    // len = MAX_MESSAGE_LENGTH means 1 id byte + (MAX-1) payload.
    let len = MAX_MESSAGE_LENGTH as u32;
    let mut buf = len.to_be_bytes().to_vec();
    buf.push(MSG_BITFIELD);
    buf.resize(4 + MAX_MESSAGE_LENGTH, 0xab);
    let (msg, n) = parse_message(&buf).unwrap().unwrap();
    assert_eq!(n, 4 + MAX_MESSAGE_LENGTH);
    match msg {
        ParsedMessage::Msg(Message::Bitfield(bf)) => {
            assert_eq!(bf.len(), MAX_MESSAGE_LENGTH - 1)
        }
        other => panic!("expected Bitfield, got {other:?}"),
    }
}

/// 13-byte header for the direct-to-staging path (body not present).
fn piece_header_bytes(index: u32, begin: u32, block_len: u32) -> [u8; SIZEOF_PIECE] {
    let message_len = 9u32 + block_len;
    let mut out = [0u8; SIZEOF_PIECE];
    out[0..4].copy_from_slice(&message_len.to_be_bytes());
    out[4] = MSG_PIECE;
    out[5..9].copy_from_slice(&index.to_be_bytes());
    out[9..13].copy_from_slice(&begin.to_be_bytes());
    out
}

#[test]
fn parse_piece_header_happy_and_boundaries() {
    let h = piece_header_bytes(9, 32768, 16384);
    let got = parse_piece_header(&h).unwrap().unwrap();
    assert_eq!(got.index, 9);
    assert_eq!(got.begin, 32768);
    assert_eq!(got.block_len, 16384);
    assert_eq!(got.message_len, 9 + 16384);

    // Empty body still a valid PIECE header (message_len == 9).
    let empty = piece_header_bytes(0, 0, 0);
    let got = parse_piece_header(&empty).unwrap().unwrap();
    assert_eq!(got.block_len, 0);
    assert_eq!(got.message_len, 9);

    // Short buffer / non-PIECE / KeepAlive: None (fallback path).
    assert!(matches!(parse_piece_header(&h[..SIZEOF_PIECE - 1]), Ok(None)));
    let choke = {
        let mut b = piece_header_bytes(0, 0, 0);
        b[4] = MSG_CHOKE;
        b[0..4].copy_from_slice(&1u32.to_be_bytes());
        b
    };
    assert!(matches!(parse_piece_header(&choke), Ok(None)));
    let keepalive = [0u8; SIZEOF_PIECE];
    assert!(matches!(parse_piece_header(&keepalive), Ok(None)));
}

#[test]
fn parse_piece_header_rejects_bad_lengths() {
    // Oversized length: same cap as parse_message.
    let mut over = piece_header_bytes(0, 0, 0);
    over[0..4].copy_from_slice(&(MAX_MESSAGE_LENGTH as u32 + 1).to_be_bytes());
    assert!(parse_piece_header(&over).unwrap_err().to_string().contains("exceeds max"));

    // PIECE id with message_len < 9 (not enough for index+begin).
    let mut short = piece_header_bytes(0, 0, 0);
    short[0..4].copy_from_slice(&8u32.to_be_bytes());
    short[4] = MSG_PIECE;
    assert!(parse_piece_header(&short).unwrap_err().to_string().contains("bad PIECE"));
}

#[test]
fn bep6_example_allowed_fast_set() {
    // From BEP 6: IP 80.4.4.200, infohash all 0xaa, 1313 pieces, k=7
    let ih = [0xaau8; 20];
    let ip = u32::from_be_bytes([80, 4, 4, 200]);
    let set = generate_allowed_fast_set(7, 1313, &ih, ip);
    assert_eq!(set, vec![1059, 431, 808, 1217, 287, 376, 1188]);
    let set9 = generate_allowed_fast_set(9, 1313, &ih, ip);
    assert_eq!(set9, vec![1059, 431, 808, 1217, 287, 376, 1188, 353, 508]);
}

#[test]
fn apply_have_all_clears_padding_bits() {
    let mut bf = vec![0u8; 1];
    apply_have_all_none(&mut bf, 3, true);
    assert_eq!(bf[0], 0b1110_0000);
    apply_have_all_none(&mut bf, 3, false);
    assert_eq!(bf[0], 0);
}

#[test]
fn allowed_fast_k_gt_piece_count_terminates() {
    // Interop matrix uses a 4-piece seed; k=10 must not spin.
    let ih = [1u8; 20];
    let ip = u32::from_be_bytes([127, 0, 0, 1]);
    let set = generate_allowed_fast_set(10, 4, &ih, ip);
    assert!(set.len() <= 4);
    let set2 = generate_allowed_fast_set(10, 4, &ih, ip);
    assert_eq!(set, set2, "deterministic");
}

fn pid(prefix: &str) -> [u8; 20] {
    let mut id = [0u8; 20];
    let p = prefix.as_bytes();
    let n = p.len().min(20);
    id[..n].copy_from_slice(&p[..n]);
    // pad rest with printable
    for b in &mut id[n..] {
        *b = b'x';
    }
    id
}

#[test]
fn azureus_qbittorrent() {
    let s = identify_peer_id(&pid("-qB4600-abcdefgh"));
    assert!(s.starts_with("qBittorrent"), "{s}");
    assert!(s.contains("4.6"), "{s}");
}

#[test]
fn azureus_libtorrent_lt() {
    let s = identify_peer_id(&pid("-lt0F07-xxxxxxxxxxxx"));
    assert!(s.starts_with("libtorrent"), "{s}");
}

#[test]
fn azureus_transmission() {
    let s = identify_peer_id(&pid("-TR4060-xxxxxxxxxxxx"));
    assert!(s.starts_with("Transmission"), "{s}");
}

#[test]
fn azureus_seedchamp() {
    let s = identify_peer_id(&pid("-sc0001-xxxxxxxxxxxx"));
    assert!(s.starts_with("seedchamp"), "{s}");
}

#[test]
fn mainline() {
    let s = identify_peer_id(&pid("M6-0-0--xxxxxxxxxxxx"));
    assert!(s.starts_with("Mainline"), "{s}");
}

#[test]
fn unknown_random() {
    let s = identify_peer_id(&[0u8; 20]);
    assert_eq!(s, "unknown");
}

#[test]
fn ltep_v_prefers_string() {
    // d1:v13:qBittorrent/4e
    let payload = b"d1:v13:qBittorrent/4e";
    assert_eq!(ltep_client_version(payload).as_deref(), Some("qBittorrent/4"));
    assert_eq!(
        prefer_client_label("libtorrent 0.15", Some("qBittorrent/4.6.0")),
        "qBittorrent/4.6.0"
    );
}

#[test]
fn a_digest_adds_five_pieces_at_most() {
    let mut d = [0u8; 20];
    for (i, y) in [1u32, 12, 3, 23, 0xffff_ffff].iter().enumerate() {
        d[4 * i..4 * i + 4].copy_from_slice(&y.to_be_bytes());
    }
    // Modulo ten: 1, 2, 3, 3 again, and 5.
    let mut a = vec![7];
    add_candidates(&mut a, &d, 10, 10);
    assert_eq!(a, vec![7, 1, 2, 3, 5]);
    let mut b = vec![7];
    add_candidates(&mut b, &d, 10, 3);
    assert_eq!(b, vec![7, 1, 2]);
}

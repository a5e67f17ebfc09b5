//! UDP announces: addresses, packets and replies.
use crate::bytes::{
    be16, be16_at, be16_round_trip, be32, be32_at, be32_round_trip, be64, be64_at, be64_round_trip, push_all, push_be16,
    push_be32, push_be64, read_be32, read_be64,
};
use crate::error::{Error, Result};
use crate::net::PeerAddr;
use crate::random::random_u32;
use crate::text::{
    chars_of, decimal, decimal_reads_back, find_char, first_at, has_prefix, last_before, last_place_is_last, lossy_text, parse_number,
    parsed_number, push_decimal, rfind_char, same_text, starts_with, text_lossy, text_of, trim,
    trimmed,
};
use crate::tracker::http::{
    blank_reply, compact_peers, parse_compact_peers, AnnounceRequest, AnnounceResponse,
    AnnounceView,
};
use vstd::prelude::*;
use vstd::slice::slice_subrange;

verus! {

/// Number that opens a connect request.
pub const PROTOCOL_ID: u64 = 0x0000_0417_2710_1980;

pub const ACTION_CONNECT: u32 = 0;

pub const ACTION_ANNOUNCE: u32 = 1;

pub const ACTION_ERROR: u32 = 3;

/// Port where an address names none.
pub const DEFAULT_UDP_PORT: u16 = 80;

/// Host and port of the part of an address before its path.
pub enum HostPort {
    Named(Seq<char>, u16),
    BadPort,
    EmptyHost,
}

/// Host and port, split at the last colon.
pub open spec fn host_port(hp: Seq<char>) -> HostPort {
    let c = last_before(hp, ':', hp.len() as int);
    if c < 0 {
        if hp.len() == 0 {
            HostPort::EmptyHost
        } else {
            HostPort::Named(hp, DEFAULT_UDP_PORT)
        }
    } else {
        match parsed_number(hp.subrange(c + 1, hp.len() as int), 0xffff) {
            Some(p) => if c == 0 {
                HostPort::EmptyHost
            } else {
                HostPort::Named(hp.subrange(0, c), p as u16)
            },
            None => HostPort::BadPort,
        }
    }
}

/// What follows `udp://` in an address, up to its path.
pub open spec fn udp_authority(url: Seq<char>) -> Option<Seq<char>> {
    let u = trimmed(url);
    if has_prefix(u, "udp://"@) || has_prefix(u, "UDP://"@) {
        let rest = u.subrange(6, u.len() as int);
        Some(rest.subrange(0, first_at(rest, '/', 0)))
    } else {
        None
    }
}

/// Host and port of a `udp://host:port/path` address.
pub fn parse_udp_tracker_url(url: &str) -> (r: Result<(String, u16)>)
    ensures
        match r {
            Ok((h, p)) => udp_authority(url@) is Some && host_port(udp_authority(url@)->0)
                == HostPort::Named(h@, p),
            Err(e) => e is Msg && match udp_authority(url@) {
                None => e.text() == "not a udp tracker url: "@ + url@,
                Some(hp) => match host_port(hp) {
                    HostPort::BadPort => e.text() == "bad udp port in "@ + url@,
                    HostPort::EmptyHost => e.text() == "empty udp host"@,
                    HostPort::Named(_, _) => false,
                },
            },
        },
{
    let t = trim(url);
    proof {
        reveal_strlit("udp://");
        reveal_strlit("UDP://");
    }
    if !starts_with(t.as_str(), "udp://") && !starts_with(t.as_str(), "UDP://") {
        let mut m = String::new();
        m.append("not a udp tracker url: ");
        m.append(url);
        assert(m@ =~= "not a udp tracker url: "@ + url@);
        return Err(Error::Msg(m));
    }
    let v: Vec<char> = chars_of(t.as_str());
    let rest_text = text_of(&v, 6, v.len());
    let rest: Vec<char> = chars_of(rest_text.as_str());
    let slash: usize = find_char(&rest, '/');
    let hp_text = text_of(&rest, 0, slash);
    let hp: Vec<char> = chars_of(hp_text.as_str());
    assert(Some(hp@) == udp_authority(url@));
    match rfind_char(&hp, ':', hp.len()) {
        Some(c) => {
            match parse_number(&hp, c + 1, hp.len(), 0xffff) {
                Some(p) => {
                    if c == 0 {
                        return Err(Error::msg("empty udp host"));
                    }
                    Ok((text_of(&hp, 0, c), p as u16))
                },
                None => {
                    let mut m = String::new();
                    m.append("bad udp port in ");
                    m.append(url);
                    assert(m@ =~= "bad udp port in "@ + url@);
                    Err(Error::Msg(m))
                },
            }
        },
        None => {
            if hp.len() == 0 {
                return Err(Error::msg("empty udp host"));
            }
            Ok((hp_text, DEFAULT_UDP_PORT))
        },
    }
}

/// The bytes of a connect request.
pub open spec fn connect_packet(tid: u32) -> Seq<u8> {
    be64(PROTOCOL_ID) + be32(ACTION_CONNECT) + be32(tid)
}

/// A connect request.
pub fn build_connect_packet(tid: u32) -> (pkt: Vec<u8>)
    ensures
        pkt@ == connect_packet(tid),
        pkt@.len() == 16,
{
    let mut pkt: Vec<u8> = Vec::new();
    push_be64(&mut pkt, PROTOCOL_ID);
    push_be32(&mut pkt, ACTION_CONNECT);
    push_be32(&mut pkt, tid);
    assert(pkt@ =~= connect_packet(tid));
    pkt
}

/// The number of an event in an announce request.
pub open spec fn event_code(event: Option<&'static str>) -> u32 {
    match event {
        Some(ev) => if ev@ == "completed"@ {
            1
        } else if ev@ == "started"@ {
            2
        } else if ev@ == "stopped"@ {
            3
        } else {
            0
        },
        None => 0,
    }
}

/// The bytes of an announce request with this key.
pub open spec fn announce_packet_bytes(
    conn_id: u64,
    tid: u32,
    req: &AnnounceRequest,
    key: u32,
) -> Seq<u8> {
    be64(conn_id) + be32(ACTION_ANNOUNCE) + be32(tid) + req.infohash@ + req.peer_id@ + be64(
        req.downloaded,
    ) + be64(req.left) + be64(req.uploaded) + be32(event_code(req.event)) + be32(0) + be32(key)
        + be32(req.numwant) + be16(req.port)
}

/// An announce request with this key.
pub fn announce_packet(conn_id: u64, tid: u32, req: &AnnounceRequest, key: u32) -> (pkt: Vec<u8>)
    ensures
        pkt@ == announce_packet_bytes(conn_id, tid, req, key),
        pkt@.len() == 98,
{
    let event: u32 = match req.event {
        Some(ev) => if same_text(ev, "completed") {
            1
        } else if same_text(ev, "started") {
            2
        } else if same_text(ev, "stopped") {
            3
        } else {
            0
        },
        None => 0,
    };
    let mut pkt: Vec<u8> = Vec::new();
    push_be64(&mut pkt, conn_id);
    push_be32(&mut pkt, ACTION_ANNOUNCE);
    push_be32(&mut pkt, tid);
    push_all(&mut pkt, req.infohash.as_slice());
    push_all(&mut pkt, req.peer_id.as_slice());
    push_be64(&mut pkt, req.downloaded);
    push_be64(&mut pkt, req.left);
    push_be64(&mut pkt, req.uploaded);
    push_be32(&mut pkt, event);
    push_be32(&mut pkt, 0);
    push_be32(&mut pkt, key);
    push_be32(&mut pkt, req.numwant);
    push_be16(&mut pkt, req.port);
    assert(pkt@ =~= announce_packet_bytes(conn_id, tid, req, key));
    pkt
}

/// An announce request. A torrent without a key gets a random one.
pub fn build_announce_packet(conn_id: u64, tid: u32, req: &AnnounceRequest) -> (pkt: Vec<u8>)
    ensures
        pkt@.len() == 98,
        req.key != 0 ==> pkt@ == announce_packet_bytes(conn_id, tid, req, req.key),
        exists|key: u32| pkt@ == #[trigger] announce_packet_bytes(conn_id, tid, req, key),
{
    let key: u32 = if req.key != 0 {
        req.key
    } else {
        random_u32()
    };
    announce_packet(conn_id, tid, req, key)
}

/// The connection id of a connect reply, or why it is refused.
pub open spec fn connect_reply(b: Seq<u8>, tid: u32) -> std::result::Result<u64, Seq<char>> {
    if b.len() < 16 {
        Err("udp connect short response"@)
    } else if be32_at(b, 4) != tid {
        Err("udp connect transaction mismatch"@)
    } else if be32_at(b, 0) == ACTION_ERROR {
        Err("udp connect error: "@ + lossy_text(b.subrange(8, b.len() as int)))
    } else if be32_at(b, 0) != ACTION_CONNECT {
        Err("udp connect bad action "@ + decimal(be32_at(b, 0) as nat))
    } else {
        Ok(be64_at(b, 8))
    }
}

fn bad_action(what: &str, action: u32) -> (e: Error)
    ensures
        e is Msg,
        e.text() == what@ + decimal(action as nat),
{
    let mut m = String::new();
    m.append(what);
    push_decimal(&mut m, action as u64);
    assert(m@ =~= what@ + decimal(action as nat));
    Error::Msg(m)
}

/// Read the first `n` bytes of `buf` as the reply to a connect request.
pub fn parse_connect_response(buf: &[u8], n: usize, tid: u32) -> (r: Result<u64>)
    requires
        n <= buf@.len(),
    ensures
        match r {
            Ok(id) => connect_reply(buf@.subrange(0, n as int), tid) == Ok::<u64, Seq<char>>(id),
            Err(e) => e is Msg && connect_reply(buf@.subrange(0, n as int), tid) == Err::<
                u64,
                Seq<char>,
            >(e.text()),
        },
{
    let b: &[u8] = slice_subrange(buf, 0, n);
    if n < 16 {
        return Err(Error::msg("udp connect short response"));
    }
    let action: u32 = read_be32(b, 0);
    if read_be32(b, 4) != tid {
        return Err(Error::msg("udp connect transaction mismatch"));
    }
    if action == ACTION_ERROR {
        let mut m = String::new();
        m.append("udp connect error: ");
        m.append(text_lossy(slice_subrange(b, 8, n)).as_str());
        assert(m@ =~= "udp connect error: "@ + lossy_text(b@.subrange(8, n as int)));
        return Err(Error::Msg(m));
    }
    if action != ACTION_CONNECT {
        return Err(bad_action("udp connect bad action ", action));
    }
    Ok(read_be64(b, 8))
}

/// Peers with a port.
pub open spec fn with_ports(p: Seq<PeerAddr>) -> Seq<PeerAddr>
    decreases p.len(),
{
    if p.len() == 0 {
        Seq::empty()
    } else if p.last().spec_port() != 0 {
        with_ports(p.drop_last()).push(p.last())
    } else {
        with_ports(p.drop_last())
    }
}

/// What an announce reply says, or why it is refused.
pub open spec fn announce_reply(b: Seq<u8>, tid: u32) -> std::result::Result<
    AnnounceView,
    Seq<char>,
> {
    if b.len() < 20 {
        Err("udp announce short response"@)
    } else if be32_at(b, 4) != tid {
        Err("udp announce transaction mismatch"@)
    } else if be32_at(b, 0) == ACTION_ERROR {
        Ok(
            AnnounceView {
                failure: Some(lossy_text(b.subrange(8, b.len() as int))),
                ..blank_reply()
            },
        )
    } else if be32_at(b, 0) != ACTION_ANNOUNCE {
        Err("udp announce bad action "@ + decimal(be32_at(b, 0) as nat))
    } else {
        Ok(
            AnnounceView {
                interval: be32_at(b, 8),
                min_interval: 0,
                peers: with_ports(compact_peers(b.subrange(20, b.len() as int))),
                failure: None,
                complete: Some(be32_at(b, 16)),
                incomplete: Some(be32_at(b, 12)),
            },
        )
    }
}

fn drop_portless(all: &Vec<PeerAddr>) -> (r: Vec<PeerAddr>)
    ensures
        r@ == with_ports(all@),
{
    let mut out: Vec<PeerAddr> = Vec::new();
    let mut i: usize = 0;
    assert(all@.subrange(0, 0) =~= Seq::<PeerAddr>::empty());
    while i < all.len()
        invariant
            i <= all@.len(),
            out@ == with_ports(all@.subrange(0, i as int)),
        decreases all@.len() - i,
    {
        assert(all@.subrange(0, i + 1).drop_last() =~= all@.subrange(0, i as int));
        if all[i].port() != 0 {
            out.push(all[i]);
        }
        i += 1;
    }
    assert(all@.subrange(0, i as int) =~= all@);
    out
}

/// Read the first `n` bytes of `buf` as the reply to an announce request. A failure that
/// the tracker reports is a reply.
pub fn parse_announce_response_udp(buf: &[u8], n: usize, tid: u32) -> (r: Result<AnnounceResponse>)
    requires
        n <= buf@.len(),
    ensures
        match r {
            Ok(a) => announce_reply(buf@.subrange(0, n as int), tid) == Ok::<
                AnnounceView,
                Seq<char>,
            >(a@),
            Err(e) => e is Msg && announce_reply(buf@.subrange(0, n as int), tid) == Err::<
                AnnounceView,
                Seq<char>,
            >(e.text()),
        },
{
    let b: &[u8] = slice_subrange(buf, 0, n);
    if n < 20 {
        return Err(Error::msg("udp announce short response"));
    }
    let action: u32 = read_be32(b, 0);
    if read_be32(b, 4) != tid {
        return Err(Error::msg("udp announce transaction mismatch"));
    }
    if action == ACTION_ERROR {
        let mut out = AnnounceResponse::default();
        out.failure = Some(text_lossy(slice_subrange(b, 8, n)));
        assert(out@ =~= announce_reply(b@, tid)->Ok_0);
        return Ok(out);
    }
    if action != ACTION_ANNOUNCE {
        return Err(bad_action("udp announce bad action ", action));
    }
    let listed: Vec<PeerAddr> = parse_compact_peers(slice_subrange(b, 20, n));
    let out = AnnounceResponse {
        interval: read_be32(b, 8),
        min_interval: 0,
        peers: drop_portless(&listed),
        failure: None,
        complete: Some(read_be32(b, 16)),
        incomplete: Some(read_be32(b, 12)),
    };
    assert(out@ =~= announce_reply(b@, tid)->Ok_0);
    Ok(out)
}

/// The connection id that a tracker sends for our transaction is the one we read.
pub proof fn connect_reply_reads_back(tid: u32, conn_id: u64)
    ensures
        connect_reply(be32(ACTION_CONNECT) + be32(tid) + be64(conn_id), tid) == Ok::<
            u64,
            Seq<char>,
        >(conn_id),
{
    let b = be32(ACTION_CONNECT) + be32(tid) + be64(conn_id);
    assert(b.subrange(0, 4) =~= be32(ACTION_CONNECT));
    assert(b.subrange(4, 8) =~= be32(tid));
    assert(b.subrange(8, 16) =~= be64(conn_id));
    be32_round_trip(b, 0, ACTION_CONNECT);
    be32_round_trip(b, 4, tid);
    be64_round_trip(b, 8, conn_id);
}

/// A connect request is that of the protocol.
pub proof fn connect_requests_have_the_bytes_of_the_protocol(tid: u32)
    ensures
        connect_packet(tid) == seq![0u8, 0, 0x04, 0x17, 0x27, 0x10, 0x19, 0x80, 0, 0, 0, 0] + be32(
            tid,
        ),
{
    assert(connect_packet(tid) =~= seq![0u8, 0, 0x04, 0x17, 0x27, 0x10, 0x19, 0x80, 0, 0, 0, 0]
        + be32(tid));
}

/// The fields of an announce request stand at the places that the protocol gives them, and
/// the event is told by its number there.
pub proof fn announce_requests_have_the_fields_of_the_protocol(
    conn_id: u64,
    tid: u32,
    req: &AnnounceRequest,
    key: u32,
)
    ensures
        ({
            let p = announce_packet_bytes(conn_id, tid, req, key);
            &&& p.len() == 98
            &&& be64_at(p, 0) == conn_id
            &&& be32_at(p, 8) == 1
            &&& be32_at(p, 12) == tid
            &&& p.subrange(16, 36) == req.infohash@
            &&& p.subrange(36, 56) == req.peer_id@
            &&& be64_at(p, 56) == req.downloaded
            &&& be64_at(p, 64) == req.left
            &&& be64_at(p, 72) == req.uploaded
            &&& req.event is None ==> be32_at(p, 80) == 0
            &&& req.event matches Some(ev) ==> (ev@ == "completed"@ ==> be32_at(p, 80) == 1) && (
            ev@ == "started"@ ==> be32_at(p, 80) == 2) && (ev@ == "stopped"@ ==> be32_at(p, 80)
                == 3)
            &&& be32_at(p, 84) == 0
            &&& be32_at(p, 88) == key
            &&& be32_at(p, 92) == req.numwant
            &&& be16_at(p, 96) == req.port
        }),
{
    reveal_strlit("completed");
    reveal_strlit("started");
    reveal_strlit("stopped");
    assert("completed"@[0] == 'c' && "started"@[2] == 'a' && "stopped"@[2] == 'o');
    assert("started"@[0] == 's' && "stopped"@[0] == 's');
    let p = announce_packet_bytes(conn_id, tid, req, key);
    assert(p.subrange(0, 8) =~= be64(conn_id));
    assert(p.subrange(8, 12) =~= be32(1));
    assert(p.subrange(12, 16) =~= be32(tid));
    assert(p.subrange(16, 36) =~= req.infohash@);
    assert(p.subrange(36, 56) =~= req.peer_id@);
    assert(p.subrange(56, 64) =~= be64(req.downloaded));
    assert(p.subrange(64, 72) =~= be64(req.left));
    assert(p.subrange(72, 80) =~= be64(req.uploaded));
    assert(p.subrange(80, 84) =~= be32(event_code(req.event)));
    assert(p.subrange(84, 88) =~= be32(0));
    assert(p.subrange(88, 92) =~= be32(key));
    assert(p.subrange(92, 96) =~= be32(req.numwant));
    assert(p.subrange(96, 98) =~= be16(req.port));
    be64_round_trip(p, 0, conn_id);
    be32_round_trip(p, 8, 1);
    be32_round_trip(p, 12, tid);
    be64_round_trip(p, 56, req.downloaded);
    be64_round_trip(p, 64, req.left);
    be64_round_trip(p, 72, req.uploaded);
    be32_round_trip(p, 80, event_code(req.event));
    be32_round_trip(p, 84, 0);
    be32_round_trip(p, 88, key);
    be32_round_trip(p, 92, req.numwant);
    be16_round_trip(p, 96, req.port);
}

/// What a tracker writes into an announce reply is what we read: the interval, the leechers
/// and the seeders in this order, and the peers that have a port.
pub proof fn announce_replies_are_read(
    tid: u32,
    interval: u32,
    leechers: u32,
    seeders: u32,
    peers: Seq<u8>,
)
    ensures
        announce_reply(
            seq![0u8, 0, 0, 1] + be32(tid) + be32(interval) + be32(leechers) + be32(seeders)
                + peers,
            tid,
        ) == Ok::<AnnounceView, Seq<char>>(
            AnnounceView {
                interval,
                min_interval: 0,
                peers: with_ports(compact_peers(peers)),
                failure: None,
                complete: Some(seeders),
                incomplete: Some(leechers),
            },
        ),
{
    let b = seq![0u8, 0, 0, 1] + be32(tid) + be32(interval) + be32(leechers) + be32(seeders)
        + peers;
    assert(be32(1) =~= seq![0u8, 0, 0, 1]);
    assert(b.subrange(0, 4) =~= be32(1));
    assert(b.subrange(4, 8) =~= be32(tid));
    assert(b.subrange(8, 12) =~= be32(interval));
    assert(b.subrange(12, 16) =~= be32(leechers));
    assert(b.subrange(16, 20) =~= be32(seeders));
    assert(b.subrange(20, b.len() as int) =~= peers);
    be32_round_trip(b, 0, 1);
    be32_round_trip(b, 4, tid);
    be32_round_trip(b, 8, interval);
    be32_round_trip(b, 12, leechers);
    be32_round_trip(b, 16, seeders);
}

/// An error reply is a failure with the tracker's words for an announce, and refused for a
/// connect request; replies that are short or answer something else are refused.
pub proof fn error_replies_fail(b: Seq<u8>, tid: u32)
    ensures
        b.len() >= 20 && be32_at(b, 4) == tid && be32_at(b, 0) == 3 ==> (announce_reply(
            b,
            tid,
        ) matches Ok(a) && a.failure == Some(lossy_text(b.subrange(8, b.len() as int)))
            && a.peers.len() == 0),
        be32_at(b, 0) != 0 ==> connect_reply(b, tid) is Err,
        be32_at(b, 0) != 1 && be32_at(b, 0) != 3 ==> announce_reply(b, tid) is Err,
        b.len() < 16 ==> connect_reply(b, tid) is Err,
        b.len() < 20 ==> announce_reply(b, tid) is Err,
{
}

/// The peers with a port stay, in their order, and no others.
pub proof fn peers_with_a_port_stay(a: Seq<PeerAddr>, b: Seq<PeerAddr>)
    ensures
        with_ports(a + b) == with_ports(a) + with_ports(b),
        forall|p: PeerAddr| #[trigger]
            with_ports(seq![p]) == if p.spec_port() == 0 {
                Seq::<PeerAddr>::empty()
            } else {
                seq![p]
            },
    decreases b.len(),
{
    assert forall|p: PeerAddr| #[trigger]
        with_ports(seq![p]) == if p.spec_port() == 0 {
            Seq::<PeerAddr>::empty()
        } else {
            seq![p]
        } by {
        assert(seq![p].drop_last() =~= Seq::<PeerAddr>::empty());
        assert(with_ports(seq![p].drop_last()) =~= Seq::<PeerAddr>::empty());
        assert(with_ports(seq![p]) =~= if p.spec_port() == 0 {
            Seq::<PeerAddr>::empty()
        } else {
            seq![p]
        });
    }
    if b.len() == 0 {
        assert(a + b =~= a);
        assert(with_ports(a) + with_ports(b) =~= with_ports(a));
    } else {
        peers_with_a_port_stay(a, b.drop_last());
        assert((a + b).drop_last() =~= a + b.drop_last());
        assert(with_ports(a + b) =~= with_ports(a) + with_ports(b));
    }
}

/// A host and a port that are written with a colon between them are read as they are, and a
/// host alone has port 80.
pub proof fn hosts_are_read_with_their_ports(host: Seq<char>, port: u16)
    requires
        host.len() > 0,
        !host.contains(':'),
    ensures
        host_port(host + seq![':'] + decimal(port as nat)) == HostPort::Named(host, port),
        host_port(host) == HostPort::Named(host, 80),
        host_port(seq![':'] + decimal(port as nat)) is EmptyHost,
        host_port(host + seq![':']) is BadPort,
{
    decimal_reads_back(port as nat, 0xffff);
    let d = decimal(port as nat);
    let s = host + seq![':'] + d;
    let e = seq![':'] + d;
    let t = host + seq![':'];
    assert forall|j: int| 0 <= j < host.len() implies host[j] != ':' by {
        assert(host.contains(host[j]));
    }
    last_place_is_last(s, ':', s.len() as int, host.len() as int);
    assert(s.subrange(host.len() as int + 1, s.len() as int) =~= d);
    assert(s.subrange(0, host.len() as int) =~= host);
    last_place_is_last(host, ':', host.len() as int, -1);
    last_place_is_last(e, ':', e.len() as int, 0);
    assert(e.subrange(1, e.len() as int) =~= d);
    last_place_is_last(t, ':', t.len() as int, host.len() as int);
    assert(t.subrange(host.len() as int + 1, t.len() as int) =~= Seq::<char>::empty());
}

/// A reply to another transaction is never taken for ours.
pub proof fn foreign_replies_are_refused(b: Seq<u8>, tid: u32)
    requires
        b.len() >= 20,
        be32_at(b, 4) != tid,
    ensures
        connect_reply(b, tid) is Err,
        announce_reply(b, tid) is Err,
{
}

/// No peer without a port is dialed from a UDP reply.
pub proof fn replies_hold_no_portless_peers(p: Seq<PeerAddr>)
    ensures
        with_ports(p).len() <= p.len(),
        forall|i: int| 0 <= i < with_ports(p).len() ==> (#[trigger] with_ports(p)[i]).spec_port() != 0,
    decreases p.len(),
{
    if p.len() > 0 {
        replies_hold_no_portless_peers(p.drop_last());
    }
}

/// Error where no address is left and none was tried.
pub open spec fn no_address() -> Seq<char> {
    "udp announce failed"@
}

/// An announce in progress: which address is tried, and which reply is awaited.
#[derive(Debug)]
pub struct UdpExchange {
    /// Number of addresses to try.
    pub addrs: usize,
    /// Address that is tried.
    pub at: usize,
    /// Whether the announce, and not the connect request, was sent.
    pub announcing: bool,
    /// Transaction that is awaited.
    pub tid: u32,
}

/// What to do next in an announce.
#[derive(Debug)]
pub enum UdpNext {
    /// Send this to the address that is tried, and wait for a reply.
    Send(Vec<u8>),
    Done(AnnounceResponse),
    Failed(Error),
}

impl UdpNext {
    /// Whether these bytes are to be sent.
    pub open spec fn sends(&self, b: Seq<u8>) -> bool {
        self matches UdpNext::Send(p) && p@ == b
    }

    /// Whether the announce is over with this reply.
    pub open spec fn finishes(&self, a: AnnounceView) -> bool {
        self matches UdpNext::Done(x) && x@ == a
    }

    /// Whether the announce is over with this error.
    pub open spec fn fails(&self, why: Seq<char>) -> bool {
        self matches UdpNext::Failed(e) && e is Msg && e.text() == why
    }
}

impl UdpExchange {
    /// Whether a reply is awaited.
    pub open spec fn waiting(&self) -> bool {
        self.at < self.addrs
    }

    /// Begin with the first of `addrs` addresses.
    pub fn start(addrs: usize, tid: u32) -> (r: (UdpExchange, UdpNext))
        ensures
            r.0 == (UdpExchange { addrs, at: 0, announcing: false, tid }),
            addrs > 0 ==> r.1.sends(connect_packet(tid)),
            addrs == 0 ==> r.1.fails(no_address()),
    {
        let x = UdpExchange { addrs, at: 0, announcing: false, tid };
        if addrs == 0 {
            return (x, UdpNext::Failed(Error::msg("udp announce failed")));
        }
        (x, UdpNext::Send(build_connect_packet(tid)))
    }

    /// The address failed with `why`: go on to the next one, or give the error up.
    pub fn address_failed(&mut self, why: Error, tid: u32) -> (r: UdpNext)
        requires
            old(self).waiting(),
        ensures
            final(self).addrs == old(self).addrs,
            final(self).at == old(self).at + 1,
            final(self).waiting() ==> {
                &&& r.sends(connect_packet(tid))
                &&& !final(self).announcing
                &&& final(self).tid == tid
            },
            !final(self).waiting() ==> r == UdpNext::Failed(why),
    {
        self.at = self.at + 1;
        if self.at < self.addrs {
            self.announcing = false;
            self.tid = tid;
            return UdpNext::Send(build_connect_packet(tid));
        }
        UdpNext::Failed(why)
    }

    /// The first `n` bytes of `buf` came: announce after a connect reply, finish after an
    /// announce reply, go on to the next address where the reply is refused. `tid` and `key`
    /// are used by what is sent next.
    pub fn received(
        &mut self,
        req: &AnnounceRequest,
        buf: &[u8],
        n: usize,
        tid: u32,
        key: u32,
    ) -> (r: UdpNext)
        requires
            old(self).waiting(),
            n <= buf@.len(),
        ensures
            final(self).addrs == old(self).addrs,
            ({
                let b = buf@.subrange(0, n as int);
                let refused = if old(self).announcing {
                    announce_reply(b, old(self).tid) is Err
                } else {
                    connect_reply(b, old(self).tid) is Err
                };
                let why = if old(self).announcing {
                    announce_reply(b, old(self).tid)->Err_0
                } else {
                    connect_reply(b, old(self).tid)->Err_0
                };
                &&& final(self).at == old(self).at + if refused {
                    1int
                } else {
                    0
                }
                &&& !refused && old(self).announcing ==> r.finishes(
                    announce_reply(b, old(self).tid)->Ok_0,
                )
                &&& !refused && !old(self).announcing ==> {
                    &&& r.sends(
                        announce_packet_bytes(
                            connect_reply(b, old(self).tid)->Ok_0,
                            tid,
                            req,
                            if req.key != 0 {
                                req.key
                            } else {
                                key
                            },
                        ),
                    )
                    &&& final(self).announcing
                    &&& final(self).tid == tid
                }
                &&& refused && final(self).waiting() ==> {
                    &&& r.sends(connect_packet(tid))
                    &&& !final(self).announcing
                    &&& final(self).tid == tid
                }
                &&& refused && !final(self).waiting() ==> r.fails(why)
            }),
    {
        if self.announcing {
            return match parse_announce_response_udp(buf, n, self.tid) {
                Ok(a) => UdpNext::Done(a),
                Err(e) => self.address_failed(e, tid),
            };
        }
        match parse_connect_response(buf, n, self.tid) {
            Ok(conn_id) => {
                self.announcing = true;
                self.tid = tid;
                let k: u32 = if req.key != 0 {
                    req.key
                } else {
                    key
                };
                UdpNext::Send(announce_packet(conn_id, tid, req, k))
            },
            Err(e) => self.address_failed(e, tid),
        }
    }
}

/// A number for the next transaction: any may come.
pub fn fresh_transaction() -> (tid: u32) {
    random_u32()
}

/// What follows `udp://` up to the first slash is the host and port, in either case of the
/// protocol's name, and no other address has one.
pub proof fn hosts_follow_the_protocol(url: Seq<char>, host: Seq<char>, path: Seq<char>)
    requires
        forall|i: int| 0 <= i < host.len() ==> #[trigger] host[i] != '/',
        path.len() > 0 ==> path[0] == '/',
    ensures
        trimmed(url) == "udp://"@ + host + path ==> udp_authority(url) == Some(host),
        trimmed(url) == "UDP://"@ + host + path ==> udp_authority(url) == Some(host),
        !has_prefix(trimmed(url), "udp://"@) && !has_prefix(trimmed(url), "UDP://"@)
            ==> udp_authority(url) is None,
{
    reveal_strlit("udp://");
    reveal_strlit("UDP://");
    let u = trimmed(url);
    let rest = host + path;
    if u == "udp://"@ + host + path || u == "UDP://"@ + host + path {
        assert(u.subrange(0, 6) =~= "udp://"@ || u.subrange(0, 6) =~= "UDP://"@);
        assert(u.subrange(6, u.len() as int) =~= rest);
        if path.len() > 0 {
            assert(rest[host.len() as int] == '/');
        }
        assert forall|j: int| 0 <= j < host.len() implies rest[j] != '/' by {
            assert(rest[j] == host[j]);
        }
        crate::text::first_place_is_first(rest, '/', 0, host.len() as int);
        assert(rest.subrange(0, host.len() as int) =~= host);
    }
}

/// What is sent is these bytes, and an announce is over with this reply.
pub proof fn sending_and_finishing_are_told_apart(p: Vec<u8>, a: AnnounceResponse)
    ensures
        UdpNext::Send(p).sends(p@),
        !UdpNext::Send(p).finishes(a@),
        UdpNext::Done(a).finishes(a@),
        !UdpNext::Done(a).sends(p@),
        no_address() == "udp announce failed"@,
{
}

} // verus!

//! HTTP announces: the request address and the bencoded reply.
use crate::bencode::{
    decode_full, dict_get_bytes, dict_get_int, dict_get_str, entry_bytes, entry_int, entry_text,
    whole,
};
use crate::bytes::{
    be16, be16_at, be16_round_trip, be32, be32_at, be32_round_trip, read_be16, read_be32,
};
use crate::error::{Error, Result};
use crate::net::PeerAddr;
use crate::text::{
    ascii, chars_of, decimal, lossy_text, push_decimal, text_lossy, text_of, trim, trimmed,
};
use vstd::prelude::*;

verus! {

/// Interval that is used where a tracker gives none, in seconds.
pub const DEFAULT_INTERVAL: u32 = 1800;

/// What is announced to a tracker.
#[derive(Debug, Clone)]
pub struct AnnounceRequest {
    pub announce_url: String,
    pub infohash: [u8; 20],
    pub peer_id: [u8; 20],
    pub port: u16,
    pub uploaded: u64,
    pub downloaded: u64,
    pub left: u64,
    /// `started`, `completed` or `stopped`.
    pub event: Option<&'static str>,
    pub numwant: u32,
    /// User agent; an empty one stands for the default.
    pub user_agent: String,
    /// Key that identifies us across address changes; zero stands for none.
    pub key: u32,
}

/// A tracker's reply.
#[derive(Debug)]
pub struct AnnounceResponse {
    /// Seconds until the next announce.
    pub interval: u32,
    /// Least seconds between announces, zero where the tracker gives none.
    pub min_interval: u32,
    pub peers: Vec<PeerAddr>,
    pub failure: Option<String>,
    /// Number of seeders.
    pub complete: Option<u32>,
    /// Number of leechers.
    pub incomplete: Option<u32>,
}

/// An [`AnnounceResponse`] with its texts and lists as sequences.
#[verifier::ext_equal]
pub struct AnnounceView {
    pub interval: u32,
    pub min_interval: u32,
    pub peers: Seq<PeerAddr>,
    pub failure: Option<Seq<char>>,
    pub complete: Option<u32>,
    pub incomplete: Option<u32>,
}

impl View for AnnounceResponse {
    type V = AnnounceView;

    open spec fn view(&self) -> AnnounceView {
        AnnounceView {
            interval: self.interval,
            min_interval: self.min_interval,
            peers: self.peers@,
            failure: match self.failure {
                Some(f) => Some(f@),
                None => None,
            },
            complete: self.complete,
            incomplete: self.incomplete,
        }
    }
}

/// A reply that says nothing.
pub open spec fn blank_reply() -> AnnounceView {
    AnnounceView {
        interval: 0,
        min_interval: 0,
        peers: Seq::empty(),
        failure: None,
        complete: None,
        incomplete: None,
    }
}

impl Default for AnnounceResponse {
    fn default() -> (r: Self)
        ensures
            r@ == blank_reply(),
    {
        AnnounceResponse {
            interval: 0,
            min_interval: 0,
            peers: Vec::new(),
            failure: None,
            complete: None,
            incomplete: None,
        }
    }
}

/// The user agent that announces carry by default: the name and the major version.
pub fn tracker_user_agent() -> (s: &'static str)
    ensures
        s@ == "seedchamp/1"@,
{
    "seedchamp/1"
}

/// The user agent of a request: an empty one stands for the default.
pub fn effective_user_agent(req: &AnnounceRequest) -> (s: String)
    ensures
        s@ == if trimmed(req.user_agent@).len() == 0 {
            "seedchamp/1"@
        } else {
            trimmed(req.user_agent@)
        },
{
    let ua = trim(req.user_agent.as_str());
    if ua.as_str().is_empty() {
        tracker_user_agent().to_owned()
    } else {
        ua
    }
}

/// A hexadecimal digit, `ten` being the character for ten.
pub open spec fn hex_digit(n: int, ten: char) -> char {
    if n < 10 {
        (48 + n) as char
    } else {
        (ten as int + n - 10) as char
    }
}

/// Bytes in percent encoding, each as `%` and two upper-case digits.
pub open spec fn percent_encoded(b: Seq<u8>) -> Seq<char>
    decreases b.len(),
{
    if b.len() == 0 {
        Seq::empty()
    } else {
        percent_encoded(b.drop_last()) + seq![
            '%',
            hex_digit(b.last() as int / 16, 'A'),
            hex_digit(b.last() as int % 16, 'A'),
        ]
    }
}

/// The last `digits` hexadecimal digits of `n`, in lower case.
pub open spec fn hex_lower(n: int, digits: int) -> Seq<char>
    decreases digits,
{
    if digits <= 0 {
        Seq::empty()
    } else {
        hex_lower(n / 16, digits - 1).push(hex_digit(n % 16, 'a'))
    }
}

fn push_hex_digit(s: &mut String, n: u8, upper: bool)
    requires
        n < 16,
    ensures
        final(s)@ == old(s)@.push(
            hex_digit(
                n as int,
                if upper {
                    'A'
                } else {
                    'a'
                },
            ),
        ),
{
    if n < 10 {
        s.push((48 + n) as char);
    } else if upper {
        s.push((55 + n) as char);
    } else {
        s.push((87 + n) as char);
    }
}

/// Bytes in percent encoding.
pub fn percent_encode_bytes(b: &[u8]) -> (s: String)
    ensures
        s@ == percent_encoded(b@),
{
    let mut s = String::new();
    let mut i: usize = 0;
    assert(b@.subrange(0, 0) =~= Seq::<u8>::empty());
    while i < b.len()
        invariant
            i <= b@.len(),
            s@ == percent_encoded(b@.subrange(0, i as int)),
        decreases b@.len() - i,
    {
        s.push('%');
        push_hex_digit(&mut s, b[i] / 16, true);
        push_hex_digit(&mut s, b[i] % 16, true);
        proof {
            let pre = b@.subrange(0, i + 1);
            assert(pre.drop_last() =~= b@.subrange(0, i as int));
            assert(s@ =~= percent_encoded(pre));
        }
        i += 1;
    }
    assert(b@.subrange(0, i as int) =~= b@);
    s
}

/// Append the last `digits` hexadecimal digits of `n`.
fn push_hex(s: &mut String, n: u32, digits: u32)
    ensures
        final(s)@ == old(s)@ + hex_lower(n as int, digits as int),
    decreases digits,
{
    if digits > 0 {
        push_hex(s, n / 16, digits - 1);
        push_hex_digit(s, (n % 16) as u8, false);
    }
    assert(s@ =~= old(s)@ + hex_lower(n as int, digits as int));
}

/// The address of an announce request.
pub open spec fn announce_address(req: &AnnounceRequest) -> Seq<char> {
    let base = trimmed(req.announce_url@);
    base + seq![
        if base.contains('?') {
            '&'
        } else {
            '?'
        },
    ] + "info_hash="@ + percent_encoded(req.infohash@) + "&peer_id="@ + percent_encoded(
        req.peer_id@,
    ) + "&port="@ + decimal(req.port as nat) + "&uploaded="@ + decimal(req.uploaded as nat)
        + "&downloaded="@ + decimal(req.downloaded as nat) + "&left="@ + decimal(req.left as nat)
        + "&compact=1&numwant="@ + decimal(req.numwant as nat) + (match req.event {
        Some(ev) => "&event="@ + ev@,
        None => Seq::empty(),
    }) + (if req.key != 0 {
        "&key="@ + hex_lower(req.key as int, 8)
    } else {
        Seq::empty()
    })
}

fn has_char(s: &str, c: char) -> (r: bool)
    ensures
        r == s@.contains(c),
{
    let v = crate::text::chars_of(s);
    let mut i: usize = 0;
    while i < v.len()
        invariant
            i <= v@.len(),
            v@ == s@,
            forall|j: int| 0 <= j < i ==> v@[j] != c,
        decreases v@.len() - i,
    {
        if v[i] == c {
            assert(s@[i as int] == c);
            return true;
        }
        i += 1;
    }
    false
}

/// The address of an announce, with infohash and peer id encoded byte by byte.
pub fn build_announce_url(req: &AnnounceRequest) -> (r: Result<String>)
    ensures
        match r {
            Ok(u) => trimmed(req.announce_url@).len() > 0 && u@ == announce_address(req),
            Err(e) => e is Msg && trimmed(req.announce_url@).len() == 0 && e.text()
                == "empty announce url"@,
        },
{
    let base = trim(req.announce_url.as_str());
    if base.as_str().is_empty() {
        return Err(Error::msg("empty announce url"));
    }
    let mut u = base.as_str().to_owned();
    if has_char(base.as_str(), '?') {
        u.push('&');
    } else {
        u.push('?');
    }
    u.append("info_hash=");
    u.append(percent_encode_bytes(req.infohash.as_slice()).as_str());
    u.append("&peer_id=");
    u.append(percent_encode_bytes(req.peer_id.as_slice()).as_str());
    u.append("&port=");
    push_decimal(&mut u, req.port as u64);
    u.append("&uploaded=");
    push_decimal(&mut u, req.uploaded);
    u.append("&downloaded=");
    push_decimal(&mut u, req.downloaded);
    u.append("&left=");
    push_decimal(&mut u, req.left);
    u.append("&compact=1&numwant=");
    push_decimal(&mut u, req.numwant as u64);
    if let Some(ev) = req.event {
        u.append("&event=");
        u.append(ev);
    }
    if req.key != 0 {
        u.append("&key=");
        push_hex(&mut u, req.key, 8);
    }
    assert(u@ =~= announce_address(req));
    Ok(u)
}

/// The peers of a compact list: six bytes each, what is left over ignored.
pub open spec fn compact_peers(b: Seq<u8>) -> Seq<PeerAddr> {
    Seq::new(
        (b.len() / 6) as nat,
        |i: int| PeerAddr::V4 { ip: be32_at(b, 6 * i), port: be16_at(b, 6 * i + 4) },
    )
}

/// The peers of a compact list.
pub fn parse_compact_peers(b: &[u8]) -> (r: Vec<PeerAddr>)
    ensures
        r@ == compact_peers(b@),
{
    let mut out: Vec<PeerAddr> = Vec::new();
    let len: usize = b.len();
    let n: usize = len / 6;
    let mut i: usize = 0;
    while i < n
        invariant
            i <= n,
            n == len / 6,
            len == b@.len(),
            out@.len() == i,
            forall|j: int| 0 <= j < i ==> #[trigger] out@[j] == compact_peers(b@)[j],
        decreases n - i,
    {
        out.push(PeerAddr::V4 { ip: read_be32(b, 6 * i), port: read_be16(b, 6 * i + 4) });
        i += 1;
    }
    assert(out@ =~= compact_peers(b@));
    out
}

/// The low 32 bits of a number that is not negative; zero for one that is.
pub open spec fn low32(n: int) -> u32 {
    if n < 0 {
        0
    } else {
        (n % 0x1_0000_0000) as u32
    }
}

/// A count that a tracker gives, where it gives one that is not negative.
pub open spec fn count_of(n: Option<int>) -> Option<u32> {
    match n {
        Some(v) => if v >= 0 {
            Some(low32(v))
        } else {
            None
        },
        None => None,
    }
}

/// Keys of a reply.
pub open spec fn key_failure() -> Seq<u8> {
    seq![102, 97, 105, 108, 117, 114, 101, 32, 114, 101, 97, 115, 111, 110]
}

pub open spec fn key_interval() -> Seq<u8> {
    seq![105, 110, 116, 101, 114, 118, 97, 108]
}

pub open spec fn key_min_interval() -> Seq<u8> {
    seq![109, 105, 110, 32, 105, 110, 116, 101, 114, 118, 97, 108]
}

pub open spec fn key_complete() -> Seq<u8> {
    seq![99, 111, 109, 112, 108, 101, 116, 101]
}

pub open spec fn key_incomplete() -> Seq<u8> {
    seq![105, 110, 99, 111, 109, 112, 108, 101, 116, 101]
}

pub open spec fn key_peers() -> Seq<u8> {
    seq![112, 101, 101, 114, 115]
}

/// What a reply says. A failure leaves everything else out.
pub open spec fn reply(b: Seq<u8>) -> AnnounceView {
    match entry_text(b, key_failure()) {
        Some(f) => AnnounceView { failure: Some(f), ..blank_reply() },
        None => {
            let interval = match entry_int(b, key_interval()) {
                Some(n) => low32(n),
                None => DEFAULT_INTERVAL,
            };
            AnnounceView {
                interval: if interval == 0 {
                    DEFAULT_INTERVAL
                } else {
                    interval
                },
                min_interval: match entry_int(b, key_min_interval()) {
                    Some(n) => low32(n),
                    None => 0,
                },
                peers: match entry_bytes(b, key_peers()) {
                    Some(p) => compact_peers(p),
                    None => Seq::empty(),
                },
                failure: None,
                complete: count_of(entry_int(b, key_complete())),
                incomplete: count_of(entry_int(b, key_incomplete())),
            }
        },
    }
}

/// Percent encoding goes byte by byte: a percent sign and the two digits of each.
pub proof fn each_byte_is_encoded_alone(a: Seq<u8>, b: Seq<u8>)
    ensures
        percent_encoded(a + b) == percent_encoded(a) + percent_encoded(b),
        forall|x: u8| #[trigger]
            percent_encoded(seq![x]) == seq![
                '%',
                "0123456789ABCDEF"@[x as int / 16],
                "0123456789ABCDEF"@[x as int % 16],
            ],
    decreases b.len(),
{
    reveal_strlit("0123456789ABCDEF");
    assert forall|x: u8| #[trigger]
        percent_encoded(seq![x]) == seq![
            '%',
            "0123456789ABCDEF"@[x as int / 16],
            "0123456789ABCDEF"@[x as int % 16],
        ] by {
        assert(seq![x].drop_last() =~= Seq::<u8>::empty());
        assert(percent_encoded(seq![x].drop_last()) =~= Seq::<char>::empty());
        assert(percent_encoded(seq![x]) =~= seq![
            '%',
            "0123456789ABCDEF"@[x as int / 16],
            "0123456789ABCDEF"@[x as int % 16],
        ]);
    }
    if b.len() == 0 {
        assert(a + b =~= a);
        assert(percent_encoded(a) + percent_encoded(b) =~= percent_encoded(a));
    } else {
        each_byte_is_encoded_alone(a, b.drop_last());
        assert((a + b).drop_last() =~= a + b.drop_last());
        assert(percent_encoded(a + b) =~= percent_encoded(a) + percent_encoded(b));
    }
}

/// A key is written with all of its digits, the highest first, in lower case.
pub proof fn keys_are_written_in_full(n: int, digits: int)
    requires
        0 <= n,
        0 <= digits,
    ensures
        hex_lower(n, digits).len() == digits,
        digits > 0 ==> hex_lower(n, digits).last() == "0123456789abcdef"@[n % 16] && hex_lower(
            n,
            digits,
        ).drop_last() == hex_lower(n / 16, digits - 1),
    decreases digits,
{
    reveal_strlit("0123456789abcdef");
    if digits > 0 {
        keys_are_written_in_full(n / 16, digits - 1);
        assert(hex_lower(n, digits).drop_last() =~= hex_lower(n / 16, digits - 1));
    }
}

/// A text stands in another one.
pub open spec fn stands_in(part: Seq<char>, s: Seq<char>) -> bool {
    exists|i: int|
        0 <= i && i + part.len() <= s.len() && #[trigger] s.subrange(i, i + part.len()) == part
}

proof fn middle_stands_in(a: Seq<char>, part: Seq<char>, b: Seq<char>)
    ensures
        stands_in(part, a + part + b),
{
    assert((a + part + b).subrange(a.len() as int, (a.len() + part.len()) as int) =~= part);
}

/// An announce goes to the tracker's address and tells it everything under its own name:
/// who we are, what we have sent, have got and are missing, how many peers we want, the event,
/// and the key.
pub proof fn announces_tell_each_thing_under_its_name(req: &AnnounceRequest)
    ensures
        ({
            let u = announce_address(req);
            let base = trimmed(req.announce_url@);
            &&& base.len() < u.len() && u.subrange(0, base.len() as int) == base
            &&& u[base.len() as int] == if base.contains('?') {
                '&'
            } else {
                '?'
            }
            &&& stands_in("info_hash="@ + percent_encoded(req.infohash@), u)
            &&& stands_in("&peer_id="@ + percent_encoded(req.peer_id@), u)
            &&& stands_in("&port="@ + decimal(req.port as nat), u)
            &&& stands_in("&uploaded="@ + decimal(req.uploaded as nat), u)
            &&& stands_in("&downloaded="@ + decimal(req.downloaded as nat), u)
            &&& stands_in("&left="@ + decimal(req.left as nat), u)
            &&& stands_in("&compact=1&numwant="@ + decimal(req.numwant as nat), u)
            &&& req.event matches Some(ev) ==> stands_in("&event="@ + ev@, u)
            &&& req.key != 0 ==> stands_in("&key="@ + hex_lower(req.key as int, 8), u)
        }),
{
    let base = trimmed(req.announce_url@);
    let u = announce_address(req);
    let mark = seq![
        if base.contains('?') {
            '&'
        } else {
            '?'
        },
    ];
    let event = match req.event {
        Some(ev) => "&event="@ + ev@,
        None => Seq::empty(),
    };
    let key = if req.key != 0 {
        "&key="@ + hex_lower(req.key as int, 8)
    } else {
        Seq::empty()
    };
    let p1 = "info_hash="@ + percent_encoded(req.infohash@);
    let p2 = "&peer_id="@ + percent_encoded(req.peer_id@);
    let p3 = "&port="@ + decimal(req.port as nat);
    let p4 = "&uploaded="@ + decimal(req.uploaded as nat);
    let p5 = "&downloaded="@ + decimal(req.downloaded as nat);
    let p6 = "&left="@ + decimal(req.left as nat);
    let p7 = "&compact=1&numwant="@ + decimal(req.numwant as nat);
    let a1 = base + mark;
    let a2 = a1 + p1;
    let a3 = a2 + p2;
    let a4 = a3 + p3;
    let a5 = a4 + p4;
    let a6 = a5 + p5;
    let a7 = a6 + p6;
    let a8 = a7 + p7;
    let a9 = a8 + event;
    joined(a1, "info_hash="@, percent_encoded(req.infohash@));
    joined(a2, "&peer_id="@, percent_encoded(req.peer_id@));
    joined(a3, "&port="@, decimal(req.port as nat));
    joined(a4, "&uploaded="@, decimal(req.uploaded as nat));
    joined(a5, "&downloaded="@, decimal(req.downloaded as nat));
    joined(a6, "&left="@, decimal(req.left as nat));
    joined(a7, "&compact=1&numwant="@, decimal(req.numwant as nat));
    assert(u == a9 + key);
    let none = Seq::<char>::empty();
    let t8 = event + key;
    let t7 = p7 + t8;
    let t6 = p6 + t7;
    let t5 = p5 + t6;
    let t4 = p4 + t5;
    let t3 = p3 + t4;
    let t2 = p2 + t3;
    joined(a8, event, key);
    joined(a7, p7, t8);
    joined(a6, p6, t7);
    joined(a5, p5, t6);
    joined(a4, p4, t5);
    joined(a3, p3, t4);
    joined(a2, p2, t3);
    joined(a1, p1, t2);
    joined(base, mark, p1 + t2);
    assert(a9 + key + none =~= u);
    middle_stands_in(a1, p1, t2);
    middle_stands_in(a2, p2, t3);
    middle_stands_in(a3, p3, t4);
    middle_stands_in(a4, p4, t5);
    middle_stands_in(a5, p5, t6);
    middle_stands_in(a6, p6, t7);
    middle_stands_in(a7, p7, t8);
    middle_stands_in(a8, event, key);
    middle_stands_in(a9, key, none);
    let tail = mark + (p1 + t2);
    assert(u == base + tail);
    assert(u.subrange(0, base.len() as int) =~= base);
    assert(u[base.len() as int] == tail[0]);
}

proof fn joined(a: Seq<char>, b: Seq<char>, c: Seq<char>)
    ensures
        a + b + c == a + (b + c),
{
    assert(a + b + c =~= a + (b + c));
}

/// A compact list is read peer by peer, six bytes each: the address and then the port.
pub proof fn compact_peers_are_read_one_by_one(ip: u32, port: u16, rest: Seq<u8>)
    ensures
        compact_peers(be32(ip) + be16(port) + rest) == seq![PeerAddr::V4 { ip, port }]
            + compact_peers(rest),
        rest.len() < 6 ==> compact_peers(rest).len() == 0,
{
    let b = be32(ip) + be16(port) + rest;
    assert(b.subrange(0, 4) =~= be32(ip));
    assert(b.subrange(4, 6) =~= be16(port));
    be32_round_trip(b, 0, ip);
    be16_round_trip(b, 4, port);
    let all = seq![PeerAddr::V4 { ip, port }] + compact_peers(rest);
    assert forall|i: int| 0 <= i < all.len() implies compact_peers(b)[i] == all[i] by {
        if i > 0 {
            let k = 6 * (i - 1);
            assert(b[6 * i] == rest[k] && b[6 * i + 1] == rest[k + 1]);
            assert(b[6 * i + 2] == rest[k + 2] && b[6 * i + 3] == rest[k + 3]);
            assert(b[6 * i + 4] == rest[k + 4] && b[6 * i + 5] == rest[k + 5]);
        }
    }
    assert(compact_peers(b) =~= all);
}

/// A reply says what the tracker wrote: an interval and counts that fit are taken as they are,
/// there is always an interval, and where the tracker reports a failure nothing else counts.
pub proof fn replies_say_what_was_written(b: Seq<u8>)
    ensures
        entry_text(b, key_failure()) matches Some(f) ==> reply(b).failure == Some(f) && reply(
            b,
        ).peers.len() == 0,
        entry_text(b, key_failure()) is None ==> {
            &&& reply(b).failure is None
            &&& reply(b).interval != 0
            &&& entry_int(b, key_interval()) is None ==> reply(b).interval == 1800
            &&& entry_int(b, key_interval()) matches Some(n) ==> (0 < n <= u32::MAX ==> reply(
                b,
            ).interval == n) && (n <= 0 ==> reply(b).interval == 1800)
            &&& entry_int(b, key_min_interval()) matches Some(n) ==> (0 <= n <= u32::MAX
                ==> reply(b).min_interval == n)
            &&& entry_int(b, key_complete()) matches Some(n) ==> (0 <= n <= u32::MAX ==> reply(
                b,
            ).complete == Some(n as u32)) && (n < 0 ==> reply(b).complete is None)
            &&& entry_int(b, key_incomplete()) matches Some(n) ==> (0 <= n <= u32::MAX ==> reply(
                b,
            ).incomplete == Some(n as u32)) && (n < 0 ==> reply(b).incomplete is None)
            &&& entry_bytes(b, key_peers()) matches Some(p) ==> reply(b).peers == compact_peers(p)
        },
{
}

/// The keys of a reply are the words of the protocol.
pub proof fn reply_keys_are_words()
    ensures
        ascii(key_failure()) == "failure reason"@,
        ascii(key_interval()) == "interval"@,
        ascii(key_min_interval()) == "min interval"@,
        ascii(key_complete()) == "complete"@,
        ascii(key_incomplete()) == "incomplete"@,
        ascii(key_peers()) == "peers"@,
{
    reveal_strlit("failure reason");
    reveal_strlit("interval");
    reveal_strlit("min interval");
    reveal_strlit("complete");
    reveal_strlit("incomplete");
    reveal_strlit("peers");
    assert(ascii(key_failure()) =~= "failure reason"@);
    assert(ascii(key_interval()) =~= "interval"@);
    assert(ascii(key_min_interval()) =~= "min interval"@);
    assert(ascii(key_complete()) =~= "complete"@);
    assert(ascii(key_incomplete()) =~= "incomplete"@);
    assert(ascii(key_peers()) =~= "peers"@);
}

fn low_bits(n: i64) -> (r: u32)
    ensures
        r == low32(n as int),
{
    if n < 0 {
        0
    } else {
        (n % 0x1_0000_0000) as u32
    }
}

fn swarm_count(n: Option<i64>) -> (r: Option<u32>)
    ensures
        r == count_of(
            match n {
                Some(v) => Some(v as int),
                None => None,
            },
        ),
{
    match n {
        Some(v) => if v >= 0 {
            Some(low_bits(v))
        } else {
            None
        },
        None => None,
    }
}

/// Characters of a reply that are told where a tracker refuses a request.
pub const REFUSAL_CHARS: usize = 200;

/// What is told of a refusal: the status, and how the reply begins.
pub open spec fn refusal_text(status: Seq<char>, body: Seq<char>) -> Seq<char> {
    "HTTP status "@ + status + ": "@ + if body.len() > REFUSAL_CHARS {
        body.subrange(0, REFUSAL_CHARS as int)
    } else {
        body
    }
}

/// What is told of a refusal: the status, and how the reply begins.
pub fn refusal(status: &str, body: &str) -> (e: Error)
    ensures
        e is Msg,
        e.text() == refusal_text(status@, body@),
{
    let chars: Vec<char> = chars_of(body);
    let n: usize = if chars.len() > REFUSAL_CHARS {
        REFUSAL_CHARS
    } else {
        chars.len()
    };
    let head: String = text_of(&chars, 0, n);
    let mut m = String::new();
    m.append("HTTP status ");
    m.append(status);
    m.append(": ");
    m.append(head.as_str());
    assert(body@.subrange(0, body@.len() as int) =~= body@);
    assert(m@ =~= refusal_text(status@, body@));
    Error::Msg(m)
}

/// The bytes of a reply, where its status is one of success.
pub fn reply_body(success: bool, status: &str, body: Vec<u8>) -> (r: Result<Vec<u8>>)
    ensures
        match r {
            Ok(b) => success && b == body,
            Err(e) => !success && e is Msg && e.text() == refusal_text(
                status@,
                lossy_text(body@),
            ),
        },
{
    if success {
        return Ok(body);
    }
    let text: String = text_lossy(body.as_slice());
    Err(refusal(status, text.as_str()))
}

/// Read a tracker's bencoded reply.
pub fn parse_announce_response(bytes: &[u8]) -> (r: Result<AnnounceResponse>)
    ensures
        match r {
            Ok(a) => whole(bytes@) && a@ == reply(bytes@),
            Err(e) => e is Msg && !whole(bytes@) && e.text()
                == "tracker bencode: malformed reply"@,
        },
{
    if !decode_full(bytes) {
        return Err(Error::msg("tracker bencode: malformed reply"));
    }
    let k_failure: [u8; 14] = [102, 97, 105, 108, 117, 114, 101, 32, 114, 101, 97, 115, 111, 110];
    let k_interval: [u8; 8] = [105, 110, 116, 101, 114, 118, 97, 108];
    let k_min: [u8; 12] = [109, 105, 110, 32, 105, 110, 116, 101, 114, 118, 97, 108];
    let k_complete: [u8; 8] = [99, 111, 109, 112, 108, 101, 116, 101];
    let k_incomplete: [u8; 10] = [105, 110, 99, 111, 109, 112, 108, 101, 116, 101];
    let k_peers: [u8; 5] = [112, 101, 101, 114, 115];
    assert(k_failure@ =~= key_failure());
    assert(k_interval@ =~= key_interval());
    assert(k_min@ =~= key_min_interval());
    assert(k_complete@ =~= key_complete());
    assert(k_incomplete@ =~= key_incomplete());
    assert(k_peers@ =~= key_peers());
    let mut out = AnnounceResponse::default();
    if let Some(f) = dict_get_str(bytes, k_failure.as_slice()) {
        out.failure = Some(f);
        assert(out@ =~= reply(bytes@));
        return Ok(out);
    }
    let interval: u32 = match dict_get_int(bytes, k_interval.as_slice()) {
        Some(n) => low_bits(n),
        None => DEFAULT_INTERVAL,
    };
    out.interval = if interval == 0 {
        DEFAULT_INTERVAL
    } else {
        interval
    };
    out.min_interval = match dict_get_int(bytes, k_min.as_slice()) {
        Some(n) => low_bits(n),
        None => 0,
    };
    out.complete = swarm_count(dict_get_int(bytes, k_complete.as_slice()));
    out.incomplete = swarm_count(dict_get_int(bytes, k_incomplete.as_slice()));
    if let Some(p) = dict_get_bytes(bytes, k_peers.as_slice()) {
        out.peers = parse_compact_peers(p.as_slice());
    }
    assert(out@ =~= reply(bytes@));
    Ok(out)
}

/// A reply that says nothing has no peers, no interval and no failure.
pub proof fn blank_replies_say_nothing()
    ensures
        blank_reply().peers.len() == 0,
        blank_reply().interval == 0 && blank_reply().min_interval == 0,
        blank_reply().failure is None && blank_reply().complete is None
            && blank_reply().incomplete is None,
{
}

/// A count that a tracker gives is taken where it is not negative and fits.
pub proof fn counts_are_taken_as_given(n: u32, v: int)
    ensures
        count_of(Some(n as int)) == Some(n),
        v < 0 ==> count_of(Some(v)) is None,
        count_of(None) is None,
        low32(n as int) == n,
        v < 0 ==> low32(v) == 0,
{
}

/// A refusal is told with its status and the first 200 characters of what came with it.
pub proof fn refusals_are_told_with_their_status(status: Seq<char>, body: Seq<char>)
    ensures
        body.len() <= 200 ==> refusal_text(status, body) == "HTTP status "@ + status + ": "@ + body,
        body.len() > 200 ==> refusal_text(status, body) == "HTTP status "@ + status + ": "@
            + body.subrange(0, 200),
{
}

} // verus!

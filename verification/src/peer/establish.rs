//! Opening and accepting connections: handshakes, and which encryption is tried.
use crate::bytes::{bytes_eq, copy_range};
use crate::error::{Error, Result};
use crate::hex::{hex_encode, hex_text};
use crate::peer::config::EncryptionMode;
use crate::random::random_u32;
use crate::text::{decimal, push_decimal, push_signed, signed};
use crate::wire::messages::{
    handshakes_are_known_by_their_name, looks_like_bt_handshake, opens_handshake, parse_handshake, HANDSHAKE_LEN,
};
use crate::wire::peer_id::{identify_peer_id, peer_label};
use vstd::prelude::*;
use vstd::slice::slice_subrange;

verus! {

/// Seconds that an inbound handshake may take in all.
pub const INBOUND_HANDSHAKE_BUDGET: u64 = 30;

/// Seconds that one read of a handshake may take.
pub const HS_IO: u64 = 15;

/// Most bytes of an encrypted handshake that are searched.
pub const MSE_SCAN_MAX: usize = 1592;

// ---------------------------------------------------------------------------
// Opening.
// ---------------------------------------------------------------------------

/// How a connection is opened.
#[derive(Debug, Clone, Copy, PartialEq, Eq, Structural)]
pub enum Dial {
    Plain,
    /// With an encrypted handshake.
    Pe,
}

/// How a connection is opened first.
pub open spec fn first_way(mode: EncryptionMode) -> Dial {
    match mode {
        EncryptionMode::PreferPlain => Dial::Plain,
        EncryptionMode::Off => Dial::Plain,
        EncryptionMode::PreferRc4 => Dial::Pe,
        EncryptionMode::RequireRc4 => Dial::Pe,
    }
}

/// How a connection is opened where the first way failed, if another is allowed.
pub open spec fn second_way(mode: EncryptionMode) -> Option<Dial> {
    match mode {
        EncryptionMode::PreferPlain => Some(Dial::Pe),
        EncryptionMode::PreferRc4 => Some(Dial::Plain),
        EncryptionMode::RequireRc4 => None,
        EncryptionMode::Off => None,
    }
}

/// How a connection is opened first.
pub fn first_dial(mode: EncryptionMode) -> (d: Dial)
    ensures
        d == first_way(mode),
{
    match mode {
        EncryptionMode::PreferPlain => Dial::Plain,
        EncryptionMode::Off => Dial::Plain,
        EncryptionMode::PreferRc4 => Dial::Pe,
        EncryptionMode::RequireRc4 => Dial::Pe,
    }
}

/// How a connection is opened where the first way failed, if another is allowed.
pub fn second_dial(mode: EncryptionMode) -> (d: Option<Dial>)
    ensures
        d == second_way(mode),
{
    match mode {
        EncryptionMode::PreferPlain => Some(Dial::Pe),
        EncryptionMode::PreferRc4 => Some(Dial::Plain),
        EncryptionMode::RequireRc4 => None,
        EncryptionMode::Off => None,
    }
}

/// The error where a connection could not be opened: of both ways where both were tried.
pub fn dial_error(mode: EncryptionMode, first: Error, second: Option<Error>) -> (e: Error)
    ensures
        match (mode, second) {
            (EncryptionMode::PreferPlain, Some(s)) => e is Msg && e.text()
                == "prefer-plain: plain failed ("@ + first.text() + "); PE retry: "@ + s.text(),
            (EncryptionMode::PreferRc4, Some(s)) => e is Msg && e.text()
                == "prefer-rc4: PE failed ("@ + first.text() + "); plain retry: "@ + s.text(),
            _ => e == first,
        },
{
    match (mode, second) {
        (EncryptionMode::PreferPlain, Some(s)) => joined(
            "prefer-plain: plain failed (",
            &first,
            "); PE retry: ",
            &s,
        ),
        (EncryptionMode::PreferRc4, Some(s)) => joined(
            "prefer-rc4: PE failed (",
            &first,
            "); plain retry: ",
            &s,
        ),
        _ => first,
    }
}

fn joined(a: &str, first: &Error, b: &str, second: &Error) -> (e: Error)
    ensures
        e is Msg,
        e.text() == a@ + first.text() + b@ + second.text(),
{
    let mut m = String::new();
    m.append(a);
    m.append(first.to_string().as_str());
    m.append(b);
    m.append(second.to_string().as_str());
    assert(m@ =~= a@ + first.text() + b@ + second.text());
    Error::Msg(m)
}

/// An encrypted connection is never opened where encryption is off, nor a plain one where it
/// is required.
pub proof fn encryption_mode_is_obeyed(mode: EncryptionMode)
    ensures
        mode == EncryptionMode::Off ==> first_way(mode) != Dial::Pe && second_way(mode) != Some(
            Dial::Pe,
        ),
        mode == EncryptionMode::RequireRc4 ==> first_way(mode) != Dial::Plain && second_way(mode)
            != Some(Dial::Plain),
        second_way(mode) != Some(first_way(mode)),
{
}

/// Why the answer to our handshake is refused, if it is.
pub open spec fn answer_refusal(hs: Seq<u8>, infohash: Seq<u8>, dial: Dial) -> Option<Seq<char>> {
    if hs[0] != 19 {
        Some(
            match dial {
                Dial::Plain => "plain peer handshake invalid first="@ + decimal(hs[0] as nat)
                    + " (encryption required?)"@,
                Dial::Pe => "PE peer handshake invalid first="@ + decimal(hs[0] as nat),
            },
        )
    } else if !opens_handshake(hs) {
        Some("not a BitTorrent handshake"@)
    } else if hs.subrange(28, 48) != infohash {
        Some("infohash mismatch"@)
    } else {
        None
    }
}

/// Check the answer to our handshake.
pub fn check_answer(hs: &[u8; HANDSHAKE_LEN], infohash: &[u8; 20], dial: Dial) -> (r: Result<()>)
    ensures
        match r {
            Ok(_) => answer_refusal(hs@, infohash@, dial) is None,
            Err(e) => e is Msg && answer_refusal(hs@, infohash@, dial) == Some(e.text()),
        },
{
    let first: u8 = hs[0];
    if first != 19 {
        let mut m = String::new();
        match dial {
            Dial::Plain => {
                m.append("plain peer handshake invalid first=");
                push_decimal(&mut m, first as u64);
                m.append(" (encryption required?)");
                assert(m@ =~= "plain peer handshake invalid first="@ + decimal(first as nat)
                    + " (encryption required?)"@);
            },
            Dial::Pe => {
                m.append("PE peer handshake invalid first=");
                push_decimal(&mut m, first as u64);
                assert(m@ =~= "PE peer handshake invalid first="@ + decimal(first as nat));
            },
        }
        return Err(Error::Msg(m));
    }
    match parse_handshake(hs.as_slice()) {
        Err(e) => Err(e),
        Ok((ih, _)) => {
            if !bytes_eq(ih.as_slice(), infohash.as_slice()) {
                return Err(Error::msg("infohash mismatch"));
            }
            Ok(())
        },
    }
}

/// Refuse a connection to ourselves: one whose handshake carries our own peer id.
pub fn reject_if_self(our_peer_id: &[u8; 20], peer_hs: &[u8; HANDSHAKE_LEN]) -> (r: Result<()>)
    ensures
        match r {
            Ok(_) => opens_handshake(peer_hs@) && peer_hs@.subrange(48, 68) != our_peer_id@,
            Err(e) => e is Msg && if !opens_handshake(peer_hs@) {
                e.text() == "not a BitTorrent handshake"@
            } else {
                peer_hs@.subrange(48, 68) == our_peer_id@ && e.text() == "is self"@
            },
        },
{
    match parse_handshake(peer_hs.as_slice()) {
        Err(e) => Err(e),
        Ok((_, their_id)) => {
            if bytes_eq(their_id.as_slice(), our_peer_id.as_slice()) {
                return Err(Error::msg("is self"));
            }
            Ok(())
        },
    }
}

/// Name of the client that sent a handshake.
pub fn handshake_client(peer_hs: &[u8; HANDSHAKE_LEN]) -> (s: String)
    ensures
        s@ == if opens_handshake(peer_hs@) {
            peer_label(peer_hs@.subrange(48, 68))
        } else {
            "unknown"@
        },
{
    match parse_handshake(peer_hs.as_slice()) {
        Ok((_, pid)) => identify_peer_id(&pid),
        Err(_) => "unknown".to_owned(),
    }
}

// ---------------------------------------------------------------------------
// Accepting.
// ---------------------------------------------------------------------------

/// How an accepted connection begins, told by its first byte.
pub fn inbound_dial(first: u8, mode: EncryptionMode) -> (r: Result<Dial>)
    ensures
        match r {
            Ok(Dial::Plain) => first == 19 && mode != EncryptionMode::RequireRc4,
            Ok(Dial::Pe) => first != 19 && mode != EncryptionMode::Off,
            Err(e) => e is Msg && if first == 19 {
                mode == EncryptionMode::RequireRc4 && e.text()
                    == "plain BT rejected: encryption mode requires RC4"@
            } else {
                mode == EncryptionMode::Off && e.text() == "peer tried PE but encryption is off"@
            },
        },
{
    if first == 19 {
        if mode.requires_rc4() {
            return Err(Error::msg("plain BT rejected: encryption mode requires RC4"));
        }
        return Ok(Dial::Plain);
    }
    if !mode.wants_pe() {
        return Err(Error::msg("peer tried PE but encryption is off"));
    }
    Ok(Dial::Pe)
}

/// The torrent that a plain handshake asks for.
pub fn inbound_infohash(hs: &[u8; HANDSHAKE_LEN]) -> (r: Result<[u8; 20]>)
    ensures
        match r {
            Ok(ih) => opens_handshake(hs@) && ih@ == hs@.subrange(28, 48),
            Err(e) => !opens_handshake(hs@) && e is Msg && e.text() == "invalid handshake"@,
        },
{
    if !looks_like_bt_handshake(hs.as_slice()) {
        return Err(Error::msg("invalid handshake"));
    }
    match parse_handshake(hs.as_slice()) {
        Ok((ih, _)) => Ok(ih),
        Err(e) => Err(e),
    }
}

/// The error for a torrent that is not running.
pub fn unknown_infohash(infohash: &[u8; 20]) -> (e: Error)
    ensures
        e is Msg,
        e.text() == "unknown infohash "@ + hex_text(infohash@),
{
    let mut m = String::new();
    m.append("unknown infohash ");
    m.append(hex_encode(infohash.as_slice()).as_str());
    assert(m@ =~= "unknown infohash "@ + hex_text(infohash@));
    Error::Msg(m)
}

/// The handshake in the first enciphered bytes, and what follows it. `None` where the
/// handshake is still to be read.
pub fn handshake_in_initial(ia: &[u8], infohash: &[u8; 20]) -> (r: Result<
    Option<(Vec<u8>, Vec<u8>)>,
>)
    ensures
        r matches Ok(None) ==> !(ia@.len() >= HANDSHAKE_LEN && opens_handshake(ia@)),
        r matches Ok(Some(p)) ==> ia@.len() >= HANDSHAKE_LEN && opens_handshake(ia@)
            && ia@.subrange(28, 48) == infohash@ && p.0@ == ia@.subrange(0, HANDSHAKE_LEN as int)
            && p.1@ == ia@.subrange(HANDSHAKE_LEN as int, ia@.len() as int),
        r matches Err(e) ==> ia@.len() >= HANDSHAKE_LEN && opens_handshake(ia@) && ia@.subrange(
            28,
            48,
        ) != infohash@ && e is Msg && e.text() == "IA infohash mismatch"@,
{
    if ia.len() < HANDSHAKE_LEN || !looks_like_bt_handshake(ia) {
        return Ok(None);
    }
    match parse_handshake(ia) {
        Err(e) => Err(e),
        Ok((ih, _)) => {
            if !bytes_eq(ih.as_slice(), infohash.as_slice()) {
                return Err(Error::msg("IA infohash mismatch"));
            }
            Ok(
                Some(
                    (
                        copy_range(ia, 0, HANDSHAKE_LEN),
                        copy_range(ia, HANDSHAKE_LEN, ia.len()),
                    ),
                ),
            )
        },
    }
}

/// Check a handshake that was read after the encrypted one.
pub fn check_after_pe(hs: &[u8; HANDSHAKE_LEN], infohash: &[u8; 20]) -> (r: Result<()>)
    ensures
        match r {
            Ok(_) => opens_handshake(hs@) && hs@.subrange(28, 48) == infohash@,
            Err(e) => e is Msg && if !opens_handshake(hs@) {
                e.text() == "invalid handshake after PE"@
            } else {
                hs@.subrange(28, 48) != infohash@ && e.text()
                    == "handshake infohash mismatch after PE"@
            },
        },
{
    if !looks_like_bt_handshake(hs.as_slice()) {
        return Err(Error::msg("invalid handshake after PE"));
    }
    match parse_handshake(hs.as_slice()) {
        Err(e) => Err(e),
        Ok((ih, _)) => {
            if !bytes_eq(ih.as_slice(), infohash.as_slice()) {
                return Err(Error::msg("handshake infohash mismatch after PE"));
            }
            Ok(())
        },
    }
}

/// The error for a torrent that has as many peers as it may.
pub fn at_max_peers(torrent_id: i64) -> (e: Error)
    ensures
        e is Msg,
        e.text() == "torrent #"@ + signed(torrent_id as int)
            + " at max_peers \u{2014} rejecting inbound"@,
{
    let mut m = String::new();
    m.append("torrent #");
    push_signed(&mut m, torrent_id);
    m.append(" at max_peers \u{2014} rejecting inbound");
    assert(m@ =~= "torrent #"@ + signed(torrent_id as int)
        + " at max_peers \u{2014} rejecting inbound"@);
    Error::Msg(m)
}

// ---------------------------------------------------------------------------
// Encrypted handshakes.
// ---------------------------------------------------------------------------

/// Whether `needle` stands at `i` in `hay`.
pub open spec fn stands_at(hay: Seq<u8>, needle: Seq<u8>, i: int) -> bool {
    0 <= i && i + needle.len() <= hay.len() && hay.subrange(i, i + needle.len()) == needle
}

/// The first place where `needle` stands in `hay`.
pub fn find_slice(hay: &[u8], needle: &[u8]) -> (r: Option<usize>)
    requires
        needle@.len() > 0,
    ensures
        match r {
            Some(i) => stands_at(hay@, needle@, i as int) && forall|j: int|
                0 <= j < i ==> !#[trigger] stands_at(hay@, needle@, j),
            None => forall|j: int| !#[trigger] stands_at(hay@, needle@, j),
        },
{
    let n: usize = needle.len();
    let end: usize = hay.len();
    let mut i: usize = 0;
    while i < end && end - i >= n
        invariant
            n == needle@.len(),
            end == hay@.len(),
            i <= end,
            forall|j: int| 0 <= j < i ==> !#[trigger] stands_at(hay@, needle@, j),
        decreases end - i,
    {
        if bytes_eq(slice_subrange(hay, i, i + n), needle) {
            return Some(i);
        }
        i += 1;
    }
    None
}

/// Whether more of an encrypted handshake may be read while its mark is sought.
pub fn may_scan_more(buf_len: usize) -> (r: Result<()>)
    ensures
        match r {
            Ok(_) => buf_len < MSE_SCAN_MAX,
            Err(e) => buf_len >= MSE_SCAN_MAX && e is Msg && e.text()
                == "MSE: req1 not found within pad limit"@,
        },
{
    if buf_len >= MSE_SCAN_MAX {
        return Err(Error::msg("MSE: req1 not found within pad limit"));
    }
    Ok(())
}

/// The twenty bytes behind the mark that tell the torrent. `None` where more must be read.
pub fn obfuscated_torrent(buf: &[u8], req1_pos: usize) -> (r: Option<Vec<u8>>)
    requires
        req1_pos <= buf@.len(),
    ensures
        match r {
            Some(v) => req1_pos + 40 <= buf@.len() && v@ == buf@.subrange(
                req1_pos + 20,
                req1_pos + 40,
            ),
            None => req1_pos + 40 > buf@.len(),
        },
{
    let end: usize = buf.len();
    if end - req1_pos < 40 {
        return None;
    }
    Some(copy_range(buf, req1_pos + 20, req1_pos + 40))
}

/// What to do where the rest of an encrypted handshake could not be read for `why`, once
/// `read` more bytes came and `buf_len` are there in all.
pub fn after_sync_read(why: &str, read: usize, buf_len: usize, req1_pos: usize) -> (r: Result<()>)
    requires
        req1_pos <= usize::MAX - MSE_SCAN_MAX,
    ensures
        match r {
            Ok(_) => read > 0 && buf_len <= req1_pos + MSE_SCAN_MAX,
            Err(e) => e is Msg && if read == 0 {
                e.text() == "MSE: eof mid-sync: "@ + why@
            } else {
                buf_len > req1_pos + MSE_SCAN_MAX && e.text() == "MSE: sync too large: "@ + why@
            },
        },
{
    if read == 0 {
        let mut m = String::new();
        m.append("MSE: eof mid-sync: ");
        m.append(why);
        assert(m@ =~= "MSE: eof mid-sync: "@ + why@);
        return Err(Error::Msg(m));
    }
    if buf_len > req1_pos + MSE_SCAN_MAX {
        let mut m = String::new();
        m.append("MSE: sync too large: ");
        m.append(why);
        assert(m@ =~= "MSE: sync too large: "@ + why@);
        return Err(Error::Msg(m));
    }
    Ok(())
}

/// Our key is followed by less than this many bytes of padding.
pub const PAD_A_BELOW: u32 = 32;

/// The padding that a random number gives.
pub fn pad_of_draw(draw: u32) -> (n: usize)
    ensures
        n == draw % PAD_A_BELOW,
{
    (draw % PAD_A_BELOW) as usize
}

/// How many bytes of padding follow our key.
pub fn initiator_pad() -> (n: usize)
    ensures
        n < PAD_A_BELOW,
{
    pad_of_draw(random_u32())
}

/// Check that the answer to an encrypted handshake was used up to its end.
pub fn check_consumed(consumed: usize, buf_len: usize) -> (r: Result<()>)
    ensures
        match r {
            Ok(_) => consumed == buf_len,
            Err(e) => consumed != buf_len && e is Msg && e.text()
                == "MSE: over-read after response (consumed="@ + decimal(consumed as nat)
                + " buf="@ + decimal(buf_len as nat) + ")"@,
        },
{
    if consumed != buf_len {
        let mut m = String::new();
        m.append("MSE: over-read after response (consumed=");
        push_decimal(&mut m, consumed as u64);
        m.append(" buf=");
        push_decimal(&mut m, buf_len as u64);
        m.append(")");
        assert(m@ =~= "MSE: over-read after response (consumed="@ + decimal(consumed as nat)
            + " buf="@ + decimal(buf_len as nat) + ")"@);
        return Err(Error::Msg(m));
    }
    Ok(())
}

/// The preferred way is tried first, and the other one after it exactly where a preference
/// leaves it open.
pub proof fn the_preferred_way_is_tried_first()
    ensures
        first_way(EncryptionMode::PreferPlain) == Dial::Plain,
        second_way(EncryptionMode::PreferPlain) == Some(Dial::Pe),
        first_way(EncryptionMode::PreferRc4) == Dial::Pe,
        second_way(EncryptionMode::PreferRc4) == Some(Dial::Plain),
        first_way(EncryptionMode::RequireRc4) == Dial::Pe,
        second_way(EncryptionMode::RequireRc4) is None,
        first_way(EncryptionMode::Off) == Dial::Plain,
        second_way(EncryptionMode::Off) is None,
{
}

/// An answer is accepted exactly where it is a handshake for the torrent that was asked for.
pub proof fn answers_must_be_for_our_torrent(
    infohash: Seq<u8>,
    other: Seq<u8>,
    peer_id: Seq<u8>,
    reserved: Seq<u8>,
    dial: Dial,
)
    requires
        infohash.len() == 20,
        other.len() == 20,
        peer_id.len() == 20,
        reserved.len() == 8,
    ensures
        answer_refusal(
            seq![
                19u8, 66, 105, 116, 84, 111, 114, 114, 101, 110, 116, 32, 112, 114, 111, 116, 111, 99,
                111, 108,
            ] + reserved + other + peer_id,
            infohash,
            dial,
        ) is None <==> other == infohash,
        forall|hs: Seq<u8>|
            hs.len() == 68 && #[trigger] answer_refusal(hs, infohash, dial) is None
                ==> opens_handshake(hs),
{
    let name = seq![
        19u8, 66, 105, 116, 84, 111, 114, 114, 101, 110, 116, 32, 112, 114, 111, 116, 111, 99,
        111, 108,
    ];
    let hs = name + reserved + other + peer_id;
    assert(hs.subrange(0, 20) =~= name);
    handshakes_are_known_by_their_name(hs);
    assert(hs.subrange(28, 48) =~= other);
}

/// A row of bytes stands in another where it is found there.
pub proof fn bytes_stand_where_they_are(a: Seq<u8>, needle: Seq<u8>, b: Seq<u8>, hay: Seq<u8>, i: int)
    ensures
        stands_at(a + needle + b, needle, a.len() as int),
        stands_at(hay, needle, i) ==> 0 <= i && i + needle.len() <= hay.len() && hay
            == hay.subrange(0, i) + needle + hay.subrange(i + needle.len(), hay.len() as int),
{
    let all = a + needle + b;
    assert(all.subrange(a.len() as int, (a.len() + needle.len()) as int) =~= needle);
    if stands_at(hay, needle, i) {
        assert(hay =~= hay.subrange(0, i) + needle + hay.subrange(
            i + needle.len(),
            hay.len() as int,
        ));
    }
}

} // verus!

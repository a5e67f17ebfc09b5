//! Client names from handshake peer ids.
//!
//! Peer ids follow conventions: Azureus style (`-XXyyyy-`), Mainline (`M1-2-3--`) and
//! Shadow style (a letter and digits). They are easily faked; the name in the extension
//! handshake is preferred where there is one.
use crate::bencode::{dict_get_str, entry_text, utf8_text};
use crate::text::{ascii, chars_of, text_of, trim, trimmed};
use vstd::prelude::*;
use vstd::utf8::valid_utf8;

verus! {

/// Longest client name that is kept, in characters.
pub const MAX_LABEL_CHARS: usize = 64;

/// The client with this Azureus-style code.
pub open spec fn azureus_name(code: (char, char)) -> Option<Seq<char>> {
    match code {
        ('7', 'T') => Some("aTorrent"@),
        ('A', 'B') => Some("AnyEvent::BitTorrent"@),
        ('A', 'G') => Some("Ares"@),
        ('A', '~') => Some("Ares"@),
        ('A', 'R') => Some("Arctic"@),
        ('A', 'T') => Some("Artemis"@),
        ('A', 'V') => Some("Avicora"@),
        ('A', 'X') => Some("BitPump"@),
        ('A', 'Z') => Some("Azureus"@),
        ('B', 'B') => Some("BitBuddy"@),
        ('B', 'C') => Some("BitComet"@),
        ('B', 'E') => Some("BitTorrent SDK"@),
        ('B', 'F') => Some("Bitflu"@),
        ('B', 'G') => Some("BTG"@),
        ('B', 'L') => Some("BitBlinder"@),
        ('B', 'P') => Some("BitTorrent Pro"@),
        ('B', 'R') => Some("BitRocket"@),
        ('B', 'S') => Some("BTSlave"@),
        ('B', 'T') => Some("Mainline"@),
        ('B', 'W') => Some("BitWombat"@),
        ('B', 'X') => Some("Bittorrent X"@),
        ('C', 'D') => Some("Enhanced CTorrent"@),
        ('C', 'T') => Some("CTorrent"@),
        ('D', 'E') => Some("Deluge"@),
        ('D', 'P') => Some("Propagate Data Client"@),
        ('E', 'B') => Some("EBit"@),
        ('E', 'S') => Some("electric sheep"@),
        ('F', 'C') => Some("FileCroc"@),
        ('F', 'D') => Some("Free Download Manager"@),
        ('F', 'T') => Some("FoxTorrent"@),
        ('F', 'X') => Some("Freebox BitTorrent"@),
        ('G', 'S') => Some("GSTorrent"@),
        ('H', 'K') => Some("Hekate"@),
        ('H', 'L') => Some("Halite"@),
        ('H', 'M') => Some("hMule"@),
        ('H', 'N') => Some("Hydranode"@),
        ('I', 'L') => Some("iLivid"@),
        ('J', 'S') => Some("Justseed.it"@),
        ('J', 'T') => Some("JavaTorrent"@),
        ('K', 'G') => Some("KGet"@),
        ('K', 'T') => Some("KTorrent"@),
        ('L', 'C') => Some("LeechCraft"@),
        ('L', 'H') => Some("LH-ABC"@),
        ('L', 'P') => Some("Lphant"@),
        ('L', 'T') => Some("libtorrent"@),
        ('l', 't') => Some("libtorrent"@),
        ('L', 'W') => Some("LimeWire"@),
        ('M', 'K') => Some("Meerkat"@),
        ('M', 'O') => Some("MonoTorrent"@),
        ('M', 'P') => Some("MooPolice"@),
        ('M', 'R') => Some("Miro"@),
        ('M', 'T') => Some("MoonlightTorrent"@),
        ('N', 'B') => Some("Net::BitTorrent"@),
        ('N', 'X') => Some("Net Transport"@),
        ('O', 'S') => Some("OneSwarm"@),
        ('O', 'T') => Some("OmegaTorrent"@),
        ('P', 'B') => Some("Protocol::BitTorrent"@),
        ('P', 'D') => Some("Pando"@),
        ('P', 'I') => Some("PicoTorrent"@),
        ('P', 'T') => Some("PHPTracker"@),
        ('q', 'B') => Some("qBittorrent"@),
        ('Q', 'D') => Some("QQDownload"@),
        ('Q', 'T') => Some("Qt 4 Torrent"@),
        ('R', 'T') => Some("Retriever"@),
        ('R', 'Z') => Some("RezTorrent"@),
        ('S', '~') => Some("Shareaza alpha/beta"@),
        ('S', 'B') => Some("SwiftBit"@),
        ('S', 'D') => Some("Xunlei"@),
        ('S', 'M') => Some("SoMud"@),
        ('S', 'P') => Some("BitSpirit"@),
        ('S', 'S') => Some("SwarmScope"@),
        ('S', 'T') => Some("SymTorrent"@),
        ('s', 't') => Some("sharktorrent"@),
        ('S', 'Z') => Some("Shareaza"@),
        ('T', 'B') => Some("Torch"@),
        ('T', 'E') => Some("terasaur Seed Bank"@),
        ('T', 'L') => Some("Tribler"@),
        ('T', 'N') => Some("Torrent.NET"@),
        ('T', 'R') => Some("Transmission"@),
        ('T', 'S') => Some("TorrentStorm"@),
        ('T', 'T') => Some("TuoTu"@),
        ('U', 'L') => Some("uLeecher!"@),
        ('U', 'M') => Some("µTorrent Mac"@),
        ('U', 'T') => Some("µTorrent"@),
        ('V', 'G') => Some("Vagaa"@),
        ('W', 'D') => Some("WebTorrent Desktop"@),
        ('W', 'T') => Some("BitLet"@),
        ('W', 'W') => Some("WebTorrent"@),
        ('W', 'Y') => Some("FireTorrent"@),
        ('X', 'L') => Some("Xunlei"@),
        ('X', 'T') => Some("XanTorrent"@),
        ('X', 'X') => Some("Xtorrent"@),
        ('Z', 'T') => Some("ZipTorrent"@),
        ('s', 'c') => Some("seedchamp"@),
        ('S', 'C') => Some("seedchamp"@),
        _ => None,
    }
}

/// The client with this Azureus-style code.
fn azureus_client_name(code: (char, char)) -> (r: Option<&'static str>)
    ensures
        match r {
            Some(n) => azureus_name(code) == Some(n@),
            None => azureus_name(code) is None,
        },
{
    match code {
        ('7', 'T') => Some("aTorrent"),
        ('A', 'B') => Some("AnyEvent::BitTorrent"),
        ('A', 'G') => Some("Ares"),
        ('A', '~') => Some("Ares"),
        ('A', 'R') => Some("Arctic"),
        ('A', 'T') => Some("Artemis"),
        ('A', 'V') => Some("Avicora"),
        ('A', 'X') => Some("BitPump"),
        ('A', 'Z') => Some("Azureus"),
        ('B', 'B') => Some("BitBuddy"),
        ('B', 'C') => Some("BitComet"),
        ('B', 'E') => Some("BitTorrent SDK"),
        ('B', 'F') => Some("Bitflu"),
        ('B', 'G') => Some("BTG"),
        ('B', 'L') => Some("BitBlinder"),
        ('B', 'P') => Some("BitTorrent Pro"),
        ('B', 'R') => Some("BitRocket"),
        ('B', 'S') => Some("BTSlave"),
        ('B', 'T') => Some("Mainline"),
        ('B', 'W') => Some("BitWombat"),
        ('B', 'X') => Some("Bittorrent X"),
        ('C', 'D') => Some("Enhanced CTorrent"),
        ('C', 'T') => Some("CTorrent"),
        ('D', 'E') => Some("Deluge"),
        ('D', 'P') => Some("Propagate Data Client"),
        ('E', 'B') => Some("EBit"),
        ('E', 'S') => Some("electric sheep"),
        ('F', 'C') => Some("FileCroc"),
        ('F', 'D') => Some("Free Download Manager"),
        ('F', 'T') => Some("FoxTorrent"),
        ('F', 'X') => Some("Freebox BitTorrent"),
        ('G', 'S') => Some("GSTorrent"),
        ('H', 'K') => Some("Hekate"),
        ('H', 'L') => Some("Halite"),
        ('H', 'M') => Some("hMule"),
        ('H', 'N') => Some("Hydranode"),
        ('I', 'L') => Some("iLivid"),
        ('J', 'S') => Some("Justseed.it"),
        ('J', 'T') => Some("JavaTorrent"),
        ('K', 'G') => Some("KGet"),
        ('K', 'T') => Some("KTorrent"),
        ('L', 'C') => Some("LeechCraft"),
        ('L', 'H') => Some("LH-ABC"),
        ('L', 'P') => Some("Lphant"),
        ('L', 'T') => Some("libtorrent"),
        ('l', 't') => Some("libtorrent"),
        ('L', 'W') => Some("LimeWire"),
        ('M', 'K') => Some("Meerkat"),
        ('M', 'O') => Some("MonoTorrent"),
        ('M', 'P') => Some("MooPolice"),
        ('M', 'R') => Some("Miro"),
        ('M', 'T') => Some("MoonlightTorrent"),
        ('N', 'B') => Some("Net::BitTorrent"),
        ('N', 'X') => Some("Net Transport"),
        ('O', 'S') => Some("OneSwarm"),
        ('O', 'T') => Some("OmegaTorrent"),
        ('P', 'B') => Some("Protocol::BitTorrent"),
        ('P', 'D') => Some("Pando"),
        ('P', 'I') => Some("PicoTorrent"),
        ('P', 'T') => Some("PHPTracker"),
        ('q', 'B') => Some("qBittorrent"),
        ('Q', 'D') => Some("QQDownload"),
        ('Q', 'T') => Some("Qt 4 Torrent"),
        ('R', 'T') => Some("Retriever"),
        ('R', 'Z') => Some("RezTorrent"),
        ('S', '~') => Some("Shareaza alpha/beta"),
        ('S', 'B') => Some("SwiftBit"),
        ('S', 'D') => Some("Xunlei"),
        ('S', 'M') => Some("SoMud"),
        ('S', 'P') => Some("BitSpirit"),
        ('S', 'S') => Some("SwarmScope"),
        ('S', 'T') => Some("SymTorrent"),
        ('s', 't') => Some("sharktorrent"),
        ('S', 'Z') => Some("Shareaza"),
        ('T', 'B') => Some("Torch"),
        ('T', 'E') => Some("terasaur Seed Bank"),
        ('T', 'L') => Some("Tribler"),
        ('T', 'N') => Some("Torrent.NET"),
        ('T', 'R') => Some("Transmission"),
        ('T', 'S') => Some("TorrentStorm"),
        ('T', 'T') => Some("TuoTu"),
        ('U', 'L') => Some("uLeecher!"),
        ('U', 'M') => Some("µTorrent Mac"),
        ('U', 'T') => Some("µTorrent"),
        ('V', 'G') => Some("Vagaa"),
        ('W', 'D') => Some("WebTorrent Desktop"),
        ('W', 'T') => Some("BitLet"),
        ('W', 'W') => Some("WebTorrent"),
        ('W', 'Y') => Some("FireTorrent"),
        ('X', 'L') => Some("Xunlei"),
        ('X', 'T') => Some("XanTorrent"),
        ('X', 'X') => Some("Xtorrent"),
        ('Z', 'T') => Some("ZipTorrent"),
        ('s', 'c') => Some("seedchamp"),
        ('S', 'C') => Some("seedchamp"),
        _ => None,
    }
}

/// Whether the byte is an ASCII digit.
pub open spec fn digit(b: u8) -> bool {
    48 <= b <= 57
}

/// Whether the byte is a visible ASCII character.
pub open spec fn graphic(b: u8) -> bool {
    33 <= b <= 126
}

/// A client's name with the four version bytes of its peer id. Four digits give a dotted
/// version without trailing zeros from the third place on; other visible characters are
/// shown as they are.
pub open spec fn with_version(name: Seq<char>, ver: Seq<u8>) -> Seq<char> {
    if forall|i: int| 0 <= i < 4 ==> digit(#[trigger] ver[i]) {
        let head = name + seq![' ', ver[0] as char, '.', ver[1] as char];
        if ver[3] != 48 {
            head + seq!['.', ver[2] as char, '.', ver[3] as char]
        } else if ver[2] != 48 {
            head + seq!['.', ver[2] as char]
        } else {
            head
        }
    } else if forall|i: int| 0 <= i < 4 ==> graphic(#[trigger] ver[i]) {
        name + seq!['/'] + ascii(ver)
    } else {
        name
    }
}

/// A client's name with its version.
fn format_with_version(name: &str, ver: [u8; 4]) -> (s: String)
    ensures
        s@ == with_version(name@, ver@),
{
    let a: u8 = ver[0];
    let b: u8 = ver[1];
    let c: u8 = ver[2];
    let d: u8 = ver[3];
    let mut s = name.to_owned();
    assert(ver@.len() == 4);
    if 48 <= a && a <= 57 && 48 <= b && b <= 57 && 48 <= c && c <= 57 && 48 <= d && d <= 57 {
        assert(forall|i: int| 0 <= i < 4 ==> digit(#[trigger] ver@[i]));
        s.push(' ');
        s.push(a as char);
        s.push('.');
        s.push(b as char);
        if d != 48 {
            s.push('.');
            s.push(c as char);
            s.push('.');
            s.push(d as char);
        } else if c != 48 {
            s.push('.');
            s.push(c as char);
        }
    } else {
        assert(!(digit(ver@[0]) && digit(ver@[1]) && digit(ver@[2]) && digit(ver@[3])));
        if 33 <= a && a <= 126 && 33 <= b && b <= 126 && 33 <= c && c <= 126 && 33 <= d && d
            <= 126 {
            assert(forall|i: int| 0 <= i < 4 ==> graphic(#[trigger] ver@[i]));
            s.push('/');
            s.push(a as char);
            s.push(b as char);
            s.push(c as char);
            s.push(d as char);
        } else {
            assert(!(graphic(ver@[0]) && graphic(ver@[1]) && graphic(ver@[2]) && graphic(ver@[3])));
        }
    }
    assert(s@ =~= with_version(name@, ver@));
    s
}

/// The client of an Azureus-style peer id: `-`, two code bytes, four version bytes, `-`.
pub open spec fn azureus_label(id: Seq<u8>) -> Option<Seq<char>> {
    if id[0] == 45 && id[7] == 45 {
        match azureus_name((id[1] as char, id[2] as char)) {
            Some(name) => Some(with_version(name, id.subrange(3, 7))),
            None => None,
        }
    } else {
        None
    }
}

fn azureus_style(id: &[u8; 20]) -> (r: Option<String>)
    ensures
        match r {
            Some(s) => azureus_label(id@) == Some(s@),
            None => azureus_label(id@) is None,
        },
{
    if id[0] != 45 || id[7] != 45 {
        return None;
    }
    match azureus_client_name((id[1] as char, id[2] as char)) {
        Some(name) => {
            let ver: [u8; 4] = [id[3], id[4], id[5], id[6]];
            assert(ver@ =~= id@.subrange(3, 7));
            Some(format_with_version(name, ver))
        },
        None => None,
    }
}

/// The first place from `j` on where two dashes stand, or the end.
pub open spec fn double_dash(id: Seq<u8>, j: int) -> int
    decreases id.len() - j,
{
    if j < 0 || j + 1 >= id.len() {
        id.len() as int
    } else if id[j] == 45 && id[j + 1] == 45 {
        j
    } else {
        double_dash(id, j + 1)
    }
}

/// Without leading dashes.
pub open spec fn undashed_start(s: Seq<u8>) -> Seq<u8>
    decreases s.len(),
{
    if s.len() > 0 && s[0] == 45 {
        undashed_start(s.subrange(1, s.len() as int))
    } else {
        s
    }
}

/// Without trailing dashes.
pub open spec fn undashed_end(s: Seq<u8>) -> Seq<u8>
    decreases s.len(),
{
    if s.len() > 0 && s.last() == 45 {
        undashed_end(s.drop_last())
    } else {
        s
    }
}

/// The version bytes of a Mainline peer id: up to the double dash, or eleven bytes where
/// there is none, without the dashes around them.
pub open spec fn mainline_version(id: Seq<u8>) -> Seq<u8> {
    let dd = double_dash(id, 0);
    let end = if dd == id.len() {
        12
    } else {
        dd
    };
    undashed_end(undashed_start(id.subrange(1, end)))
}

/// The client of a Mainline peer id: `M` and a version of digits and dashes.
pub open spec fn mainline_label(id: Seq<u8>) -> Option<Seq<char>> {
    let ver = mainline_version(id);
    if id[0] == 77 && valid_utf8(id) && ver.len() > 0 && forall|i: int|
        0 <= i < ver.len() ==> digit(#[trigger] ver[i]) || ver[i] == 45 {
        Some("Mainline "@ + ascii(ver))
    } else {
        None
    }
}

fn mainline_style(id: &[u8; 20]) -> (r: Option<String>)
    ensures
        match r {
            Some(s) => mainline_label(id@) == Some(s@),
            None => mainline_label(id@) is None,
        },
{
    if id[0] != 77 {
        return None;
    }
    if utf8_text(id.as_slice()).is_none() {
        return None;
    }
    let mut dd: usize = 0;
    while dd < 19 && !(id[dd] == 45 && id[dd + 1] == 45)
        invariant
            dd <= 19,
            id@.len() == 20,
            double_dash(id@, 0) == double_dash(id@, dd as int),
        decreases 19 - dd,
    {
        dd += 1;
    }
    let end: usize = if dd == 19 {
        12
    } else {
        dd
    };
    assert(dd < 19 ==> double_dash(id@, 0) == dd);
    assert(dd == 19 ==> double_dash(id@, 0) == 20);
    assert(end >= 1) by {
        assert(id@[0] == 77);
    }
    let ghost body = id@.subrange(1, end as int);
    let mut a: usize = 1;
    while a < end && id[a] == 45
        invariant
            1 <= a <= end <= 19,
            id@.len() == 20,
            undashed_start(body) == undashed_start(id@.subrange(a as int, end as int)),
        decreases end - a,
    {
        let ghost rest = id@.subrange(a as int, end as int);
        assert(rest.subrange(1, rest.len() as int) =~= id@.subrange(a + 1, end as int));
        a += 1;
    }
    let ghost mid = id@.subrange(a as int, end as int);
    assert(undashed_start(body) == mid);
    let mut b: usize = end;
    while b > a && id[b - 1] == 45
        invariant
            1 <= a <= b <= end <= 19,
            id@.len() == 20,
            undashed_end(mid) == undashed_end(id@.subrange(a as int, b as int)),
        decreases b,
    {
        let ghost rest = id@.subrange(a as int, b as int);
        assert(rest.drop_last() =~= id@.subrange(a as int, b - 1));
        b -= 1;
    }
    let ghost ver = id@.subrange(a as int, b as int);
    assert(mainline_version(id@) == ver);
    if a == b {
        return None;
    }
    let mut s = "Mainline ".to_owned();
    let mut i: usize = a;
    assert(s@ =~= "Mainline "@ + ascii(id@.subrange(a as int, a as int)));
    while i < b
        invariant
            1 <= a <= i <= b <= 19,
            id@.len() == 20,
            id@[0] == 77,
            ver == id@.subrange(a as int, b as int),
            mainline_version(id@) == ver,
            s@ == "Mainline "@ + ascii(id@.subrange(a as int, i as int)),
            forall|j: int| 0 <= j < i - a ==> digit(#[trigger] ver[j]) || ver[j] == 45,
        decreases b - i,
    {
        let c: u8 = id[i];
        if !(48 <= c && c <= 57) && c != 45 {
            assert(ver[i - a] == c);
            return None;
        }
        s.push(c as char);
        assert(ver[i - a] == c);
        assert(s@ =~= "Mainline "@ + ascii(id@.subrange(a as int, i + 1)));
        i += 1;
    }
    Some(s)
}

/// The client of a Shadow-style peer id's first byte.
pub open spec fn shadow_name(b: u8) -> Option<Seq<char>> {
    if b == 65 {
        Some("ABC"@)
    } else if b == 79 {
        Some("Osprey"@)
    } else if b == 81 {
        Some("BTQueue"@)
    } else if b == 82 {
        Some("Tribler"@)
    } else if b == 83 {
        Some("Shadow"@)
    } else if b == 84 {
        Some("BitTornado"@)
    } else if b == 85 {
        Some("UPnP NAT Bit Torrent"@)
    } else {
        None
    }
}

/// The first place from `j` on that holds no digit.
pub open spec fn run_end(id: Seq<u8>, j: int) -> int
    decreases id.len() - j,
{
    if 0 <= j < id.len() && digit(id[j]) {
        run_end(id, j + 1)
    } else {
        j
    }
}

/// The client of a Shadow-style peer id: a letter, and the digits after it as version.
pub open spec fn shadow_label(id: Seq<u8>) -> Option<Seq<char>> {
    match shadow_name(id[0]) {
        Some(name) => {
            let e = run_end(id, 1);
            if e == 1 {
                Some(name)
            } else {
                Some(name + " "@ + ascii(id.subrange(1, e)))
            }
        },
        None => None,
    }
}

fn shadow_style(id: &[u8; 20]) -> (r: Option<String>)
    ensures
        match r {
            Some(s) => shadow_label(id@) == Some(s@),
            None => shadow_label(id@) is None,
        },
{
    let b: u8 = id[0];
    let name: &str = if b == 65 {
        "ABC"
    } else if b == 79 {
        "Osprey"
    } else if b == 81 {
        "BTQueue"
    } else if b == 82 {
        "Tribler"
    } else if b == 83 {
        "Shadow"
    } else if b == 84 {
        "BitTornado"
    } else if b == 85 {
        "UPnP NAT Bit Torrent"
    } else {
        return None;
    };
    let mut s = name.to_owned();
    s.append(" ");
    let mut i: usize = 1;
    assert(s@ =~= name@ + " "@ + ascii(id@.subrange(1, 1)));
    while i < 20 && 48 <= id[i] && id[i] <= 57
        invariant
            1 <= i <= 20,
            id@.len() == 20,
            run_end(id@, 1) == run_end(id@, i as int),
            s@ == name@ + " "@ + ascii(id@.subrange(1, i as int)),
        decreases 20 - i,
    {
        s.push(id[i] as char);
        assert(s@ =~= name@ + " "@ + ascii(id@.subrange(1, i + 1)));
        i += 1;
    }
    if i == 1 {
        Some(name.to_owned())
    } else {
        Some(s)
    }
}

/// The first place from `j` on, and before the twelfth byte, that holds no visible
/// character.
pub open spec fn visible_end(id: Seq<u8>, j: int) -> int
    decreases 12 - j,
{
    if 0 <= j < 12 && graphic(id[j]) {
        visible_end(id, j + 1)
    } else {
        j
    }
}

/// The label of a peer id that follows no convention: the visible characters it starts
/// with, where there are at least two.
pub open spec fn fallback_label(id: Seq<u8>) -> Seq<char> {
    let e = visible_end(id, 0);
    if e >= 2 {
        "peer:"@ + ascii(id.subrange(0, e))
    } else {
        "unknown"@
    }
}

fn printable_fallback(id: &[u8; 20]) -> (s: String)
    ensures
        s@ == fallback_label(id@),
{
    let mut s = "peer:".to_owned();
    let mut i: usize = 0;
    assert(s@ =~= "peer:"@ + ascii(id@.subrange(0, 0)));
    while i < 12 && 33 <= id[i] && id[i] <= 126
        invariant
            i <= 12,
            id@.len() == 20,
            visible_end(id@, 0) == visible_end(id@, i as int),
            s@ == "peer:"@ + ascii(id@.subrange(0, i as int)),
        decreases 12 - i,
    {
        s.push(id[i] as char);
        assert(s@ =~= "peer:"@ + ascii(id@.subrange(0, i + 1)));
        i += 1;
    }
    if i >= 2 {
        s
    } else {
        "unknown".to_owned()
    }
}

/// The label of a peer id, by the first convention that it follows.
pub open spec fn peer_label(id: Seq<u8>) -> Seq<char> {
    match azureus_label(id) {
        Some(s) => s,
        None => match mainline_label(id) {
            Some(s) => s,
            None => match shadow_label(id) {
                Some(s) => s,
                None => fallback_label(id),
            },
        },
    }
}

/// Name a remote client from its handshake peer id.
pub fn identify_peer_id(peer_id: &[u8; 20]) -> (s: String)
    ensures
        s@ == peer_label(peer_id@),
{
    if let Some(s) = azureus_style(peer_id) {
        return s;
    }
    if let Some(s) = mainline_style(peer_id) {
        return s;
    }
    if let Some(s) = shadow_style(peer_id) {
        return s;
    }
    printable_fallback(peer_id)
}

/// The first characters of a text, at most [`MAX_LABEL_CHARS`].
pub open spec fn capped(s: Seq<char>) -> Seq<char> {
    if s.len() <= MAX_LABEL_CHARS {
        s
    } else {
        s.subrange(0, MAX_LABEL_CHARS as int)
    }
}

fn cap_label(s: &str) -> (r: String)
    ensures
        r@ == capped(s@),
{
    let v: Vec<char> = chars_of(s);
    let n: usize = if v.len() <= MAX_LABEL_CHARS {
        v.len()
    } else {
        MAX_LABEL_CHARS
    };
    assert(v@.subrange(0, v@.len() as int) =~= v@);
    text_of(&v, 0, n)
}

/// The client name in an extension handshake: its `v` entry, trimmed and capped.
pub open spec fn ltep_version(payload: Seq<u8>) -> Option<Seq<char>> {
    match entry_text(payload, seq![118u8]) {
        Some(t) => if trimmed(t).len() == 0 {
            None
        } else {
            Some(capped(trimmed(t)))
        },
        None => None,
    }
}

/// The client name in an extension handshake, where it has one.
pub fn ltep_client_version(payload: &[u8]) -> (r: Option<String>)
    ensures
        match r {
            Some(s) => ltep_version(payload@) == Some(s@),
            None => ltep_version(payload@) is None,
        },
{
    let key: [u8; 1] = [118];
    assert(key@ =~= seq![118u8]);
    match dict_get_str(payload, key.as_slice()) {
        Some(t) => {
            let v = trim(t.as_str());
            if v.as_str().is_empty() {
                None
            } else {
                Some(cap_label(v.as_str()))
            }
        },
        None => None,
    }
}

/// The name from the extension handshake where there is one, else the one from the peer
/// id.
pub open spec fn preferred_label(from_peer_id: Seq<char>, from_ltep: Option<Seq<char>>) -> Seq<
    char,
> {
    match from_ltep {
        Some(v) => if trimmed(v).len() > 0 {
            capped(trimmed(v))
        } else {
            from_peer_id
        },
        None => from_peer_id,
    }
}

/// The name to show for a peer.
pub fn prefer_client_label(from_peer_id: &str, from_ltep: Option<&str>) -> (s: String)
    ensures
        s@ == preferred_label(
            from_peer_id@,
            match from_ltep {
                Some(v) => Some(v@),
                None => None,
            },
        ),
{
    match from_ltep {
        Some(v) => {
            let t = trim(v);
            if !t.as_str().is_empty() {
                cap_label(t.as_str())
            } else {
                from_peer_id.to_owned()
            }
        },
        None => from_peer_id.to_owned(),
    }
}

/// The name from an extension handshake is taken over as it is: it needs no second
/// trimming or capping.
pub proof fn ltep_name_is_bounded(payload: Seq<u8>)
    requires
        ltep_version(payload) is Some,
    ensures
        0 < ltep_version(payload)->0.len() <= MAX_LABEL_CHARS,
{
}

/// Common clients are known by their codes, and ours by its own in either case.
pub proof fn common_clients_are_known_by_their_codes()
    ensures
        azureus_name(('q', 'B')) == Some("qBittorrent"@),
        azureus_name(('T', 'R')) == Some("Transmission"@),
        azureus_name(('D', 'E')) == Some("Deluge"@),
        azureus_name(('U', 'T')) == Some("\u{b5}Torrent"@),
        azureus_name(('l', 't')) == Some("libtorrent"@),
        azureus_name(('L', 'T')) == Some("libtorrent"@),
        azureus_name(('A', 'Z')) == Some("Azureus"@),
        azureus_name(('K', 'T')) == Some("KTorrent"@),
        azureus_name(('B', 'C')) == Some("BitComet"@),
        azureus_name(('W', 'W')) == Some("WebTorrent"@),
        azureus_name(('T', 'L')) == Some("Tribler"@),
        azureus_name(('s', 'c')) == Some("seedchamp"@),
        azureus_name(('S', 'C')) == Some("seedchamp"@),
{
}

/// Four digits are a dotted version: the first two are always shown, the third where it or the
/// fourth is not zero, and the fourth where it is not zero.
pub proof fn versions_are_dotted(name: Seq<char>, ver: Seq<u8>)
    requires
        ver.len() == 4,
        48 <= ver[0] <= 57,
        48 <= ver[1] <= 57,
        48 <= ver[2] <= 57,
        48 <= ver[3] <= 57,
    ensures
        ver[2] == 48 && ver[3] == 48 ==> with_version(name, ver) == name + seq![
            ' ',
            ver[0] as char,
            '.',
            ver[1] as char,
        ],
        ver[2] != 48 && ver[3] == 48 ==> with_version(name, ver) == name + seq![
            ' ',
            ver[0] as char,
            '.',
            ver[1] as char,
            '.',
            ver[2] as char,
        ],
        ver[3] != 48 ==> with_version(name, ver) == name + seq![
            ' ',
            ver[0] as char,
            '.',
            ver[1] as char,
            '.',
            ver[2] as char,
            '.',
            ver[3] as char,
        ],
{
    assert forall|i: int| 0 <= i < 4 implies digit(#[trigger] ver[i]) by {
        assert(i == 0 || i == 1 || i == 2 || i == 3);
    }
    let head = seq![' ', ver[0] as char, '.', ver[1] as char];
    assert(name + head + seq!['.', ver[2] as char] =~= name + seq![
        ' ',
        ver[0] as char,
        '.',
        ver[1] as char,
        '.',
        ver[2] as char,
    ]);
    assert(name + head + seq!['.', ver[2] as char, '.', ver[3] as char] =~= name + seq![
        ' ',
        ver[0] as char,
        '.',
        ver[1] as char,
        '.',
        ver[2] as char,
        '.',
        ver[3] as char,
    ]);
}

/// A version with other visible characters is shown behind a slash, and one that cannot be
/// shown is left out.
pub proof fn other_versions_are_shown_as_they_are(name: Seq<char>, ver: Seq<u8>, k: int, j: int)
    requires
        ver.len() == 4,
        0 <= k < 4,
        0 <= j < 4,
        !(48 <= ver[k] <= 57),
    ensures
        (33 <= ver[0] <= 126 && 33 <= ver[1] <= 126 && 33 <= ver[2] <= 126 && 33 <= ver[3] <= 126)
            ==> with_version(name, ver) == name + seq![
            '/',
            ver[0] as char,
            ver[1] as char,
            ver[2] as char,
            ver[3] as char,
        ],
        !(33 <= ver[j] <= 126) ==> with_version(name, ver) == name,
{
    assert(!digit(ver[k]));
    if 33 <= ver[0] <= 126 && 33 <= ver[1] <= 126 && 33 <= ver[2] <= 126 && 33 <= ver[3] <= 126 {
        assert forall|i: int| 0 <= i < 4 implies graphic(#[trigger] ver[i]) by {
            assert(i == 0 || i == 1 || i == 2 || i == 3);
        }
        assert(name + seq!['/'] + ascii(ver) =~= name + seq![
            '/',
            ver[0] as char,
            ver[1] as char,
            ver[2] as char,
            ver[3] as char,
        ]);
    }
    if !(33 <= ver[j] <= 126) {
        assert(!graphic(ver[j]));
    }
}

/// A peer id between dashes tells its client by the two bytes behind the first, and its version
/// by the four that follow.
pub proof fn ids_between_dashes_tell_their_client(id: Seq<u8>)
    requires
        id.len() == 20,
    ensures
        id[0] == 0x2d && id[7] == 0x2d ==> (azureus_name((id[1] as char, id[2] as char)) matches Some(
            name,
        ) ==> peer_label(id) == with_version(name, seq![id[3], id[4], id[5], id[6]])),
        id[0] != 0x2d || id[7] != 0x2d ==> azureus_label(id) is None,
        azureus_name((id[1] as char, id[2] as char)) is None ==> azureus_label(id) is None,
{
    assert(id.subrange(3, 7) =~= seq![id[3], id[4], id[5], id[6]]);
}

proof fn dashes_come_first(id: Seq<u8>, j: int, k: int)
    requires
        0 <= j <= k,
        k + 1 < id.len(),
        id[k] == 45,
        id[k + 1] == 45,
        forall|i: int| j <= i < k ==> !(#[trigger] id[i] == 45 && id[i + 1] == 45),
    ensures
        double_dash(id, j) == k,
    decreases k - j,
{
    if j < k {
        assert(!(id[j] == 45 && id[j + 1] == 45));
        dashes_come_first(id, j + 1, k);
    }
}

proof fn nothing_to_strip(s: Seq<u8>)
    requires
        s.len() > 0,
        s[0] != 45,
        s.last() != 45,
    ensures
        undashed_start(s) == s,
        undashed_end(s) == s,
{
}

/// A peer id of `M`, digits that single dashes part, and two dashes tells Mainline and those
/// digits with their dashes.
pub proof fn mainline_ids_tell_their_version(id: Seq<u8>, e: int)
    requires
        id.len() == 20,
        id[0] == 0x4d,
        valid_utf8(id),
        2 <= e < 19,
        id[e] == 0x2d,
        id[e + 1] == 0x2d,
        forall|i: int| 1 <= i < e ==> 48 <= #[trigger] id[i] <= 57 || id[i] == 0x2d,
        forall|i: int| 1 <= i < e ==> !(#[trigger] id[i] == 0x2d && id[i + 1] == 0x2d),
        id[1] != 0x2d,
    ensures
        mainline_label(id) == Some("Mainline "@ + ascii(id.subrange(1, e))),
        peer_label(id) == "Mainline "@ + ascii(id.subrange(1, e)),
{
    assert forall|i: int| 0 <= i < e implies !(#[trigger] id[i] == 45 && id[i + 1] == 45) by {}
    dashes_come_first(id, 0, e);
    let ver = id.subrange(1, e);
    assert(ver[0] == id[1]);
    assert(ver.last() == id[e - 1]);
    assert(!(id[e - 1] == 0x2d && id[e] == 0x2d));
    nothing_to_strip(ver);
    assert(mainline_version(id) == ver);
    assert forall|i: int| 0 <= i < ver.len() implies digit(#[trigger] ver[i]) || ver[i] == 45 by {
        assert(ver[i] == id[i + 1]);
    }
}

/// Dashes around a version are left out, and none inside.
pub proof fn dashes_around_a_version_are_left_out(s: Seq<u8>)
    ensures
        undashed_start(seq![0x2du8] + s) == undashed_start(s),
        undashed_end(s.push(0x2d)) == undashed_end(s),
        s.len() > 0 && s[0] != 0x2d ==> undashed_start(s) == s,
        s.len() > 0 && s.last() != 0x2d ==> undashed_end(s) == s,
{
    let t = seq![0x2du8] + s;
    assert(t.subrange(1, t.len() as int) =~= s);
    assert(s.push(0x2d).drop_last() =~= s);
}

/// Clients of the older style are known by the letter that their ids begin with.
pub proof fn older_clients_are_known_by_their_letter(b: u8)
    ensures
        b == 0x41 ==> shadow_name(b) == Some("ABC"@),
        b == 0x4f ==> shadow_name(b) == Some("Osprey"@),
        b == 0x51 ==> shadow_name(b) == Some("BTQueue"@),
        b == 0x52 ==> shadow_name(b) == Some("Tribler"@),
        b == 0x53 ==> shadow_name(b) == Some("Shadow"@),
        b == 0x54 ==> shadow_name(b) == Some("BitTornado"@),
        b == 0x55 ==> shadow_name(b) == Some("UPnP NAT Bit Torrent"@),
        shadow_name(b) is Some ==> b == 0x41 || b == 0x4f || 0x51 <= b <= 0x55,
{
}

proof fn digits_run_to_their_end(id: Seq<u8>, j: int, e: int)
    requires
        0 <= j <= e <= id.len(),
        forall|i: int| j <= i < e ==> 48 <= #[trigger] id[i] <= 57,
        e < id.len() ==> !(48 <= id[e] <= 57),
    ensures
        run_end(id, j) == e,
    decreases e - j,
{
    if j < e {
        assert(digit(id[j]));
        digits_run_to_their_end(id, j + 1, e);
    }
}

/// Behind the letter of an older client its version is the digits that follow.
pub proof fn older_clients_tell_their_version(id: Seq<u8>, name: Seq<char>, e: int)
    requires
        id.len() == 20,
        shadow_name(id[0]) == Some(name),
        1 <= e <= 20,
        forall|i: int| 1 <= i < e ==> 48 <= #[trigger] id[i] <= 57,
        e < 20 ==> !(48 <= id[e] <= 57),
    ensures
        e == 1 ==> shadow_label(id) == Some(name),
        e > 1 ==> shadow_label(id) == Some(name + " "@ + ascii(id.subrange(1, e))),
{
    digits_run_to_their_end(id, 1, e);
}

proof fn visible_characters_run(id: Seq<u8>, j: int, e: int)
    requires
        0 <= j <= e <= 12,
        forall|i: int| j <= i < e ==> 33 <= #[trigger] id[i] <= 126,
        e < 12 ==> !(33 <= id[e] <= 126),
    ensures
        visible_end(id, j) == e,
    decreases e - j,
{
    if j < e {
        assert(graphic(id[j]));
        visible_characters_run(id, j + 1, e);
    }
}

/// A peer id of no known client is shown by the visible characters it begins with, at most
/// twelve of them, and as unknown where there are fewer than two.
pub proof fn unknown_clients_are_shown_by_their_id(id: Seq<u8>, e: int)
    requires
        id.len() == 20,
        0 <= e <= 12,
        forall|i: int| 0 <= i < e ==> 33 <= #[trigger] id[i] <= 126,
        e < 12 ==> !(33 <= id[e] <= 126),
    ensures
        e < 2 ==> fallback_label(id) == "unknown"@,
        e >= 2 ==> fallback_label(id) == "peer:"@ + ascii(id.subrange(0, e)),
        azureus_label(id) is None && mainline_label(id) is None && shadow_label(id) is None
            ==> peer_label(id) == fallback_label(id),
        azureus_label(id) is None && mainline_label(id) is None ==> (shadow_label(id) matches Some(s)
            ==> peer_label(id) == s),
{
    visible_characters_run(id, 0, e);
}

/// A name is cut behind its 64th character.
pub proof fn long_names_are_cut(s: Seq<char>)
    ensures
        s.len() <= 64 ==> capped(s) == s,
        s.len() > 64 ==> capped(s) == s.subrange(0, 64),
{
}

/// The name that a client gives itself goes before the one of its peer id, unless it is empty.
pub proof fn clients_are_called_as_they_call_themselves(
    from_peer_id: Seq<char>,
    v: Seq<char>,
    payload: Seq<u8>,
)
    ensures
        trimmed(v).len() > 0 ==> preferred_label(from_peer_id, Some(v)) == capped(trimmed(v)),
        trimmed(v).len() == 0 ==> preferred_label(from_peer_id, Some(v)) == from_peer_id,
        preferred_label(from_peer_id, None) == from_peer_id,
        entry_text(payload, seq![0x76u8]) matches Some(t) ==> (trimmed(t).len() > 0 ==> ltep_version(
            payload,
        ) == Some(capped(trimmed(t)))),
        entry_text(payload, seq![0x76u8]) is None ==> ltep_version(payload) is None,
{
}

} // verus!

//! Tracker exchange: what is sent, how replies are read, and how many run at a time.
use crate::error::{Error, Result};
use crate::random::random_u32;
use crate::text::{has_prefix, lowered, starts_with, to_lower, trim, trimmed};
use vstd::prelude::*;

pub mod dns;
pub mod http;
pub mod limit;
pub mod udp;

verus! {

/// How often a key of zero is drawn again.
pub const KEY_DRAWS: u32 = 64;

/// The key that a random number gives; zero gives none.
pub fn key_of_draw(draw: u32) -> (k: Option<u32>)
    ensures
        k == if draw != 0 {
            Some(draw)
        } else {
            None
        },
{
    if draw != 0 {
        Some(draw)
    } else {
        None
    }
}

/// A key for announces: the first of some random numbers that gives one. It is never zero.
pub fn generate_tracker_key() -> (k: u32)
    ensures
        k != 0,
{
    let mut left: u32 = KEY_DRAWS;
    while left > 0
        decreases left,
    {
        if let Some(k) = key_of_draw(random_u32()) {
            return k;
        }
        left -= 1;
    }
    1
}

/// Protocol of a tracker.
#[derive(Debug, Clone, Copy, PartialEq, Eq, Structural)]
pub enum TrackerScheme {
    Udp,
    Http,
}

/// The protocol that an announce address asks for.
pub open spec fn scheme_of(url: Seq<char>) -> Option<TrackerScheme> {
    let u = lowered(trimmed(url));
    if has_prefix(u, "udp://"@) {
        Some(TrackerScheme::Udp)
    } else if has_prefix(u, "http://"@) || has_prefix(u, "https://"@) {
        Some(TrackerScheme::Http)
    } else {
        None
    }
}

/// The protocol to announce with.
pub fn announce_scheme(announce_url: &str) -> (r: Result<TrackerScheme>)
    ensures
        match r {
            Ok(s) => scheme_of(announce_url@) == Some(s),
            Err(e) => e is Msg && scheme_of(announce_url@) is None && e.text()
                == "unsupported tracker scheme: "@ + announce_url@,
        },
{
    let t = trim(announce_url);
    let u = to_lower(t.as_str());
    if starts_with(u.as_str(), "udp://") {
        Ok(TrackerScheme::Udp)
    } else if starts_with(u.as_str(), "http://") || starts_with(u.as_str(), "https://") {
        Ok(TrackerScheme::Http)
    } else {
        let mut m = String::new();
        m.append("unsupported tracker scheme: ");
        m.append(announce_url);
        assert(m@ =~= "unsupported tracker scheme: "@ + announce_url@);
        Err(Error::Msg(m))
    }
}

/// Addresses of each protocol are known by how they begin, in upper or lower case.
pub proof fn protocols_are_known_by_their_scheme(url: Seq<char>)
    ensures
        has_prefix(lowered(trimmed(url)), "udp://"@) <==> scheme_of(url) == Some(
            TrackerScheme::Udp,
        ),
        has_prefix(lowered(trimmed(url)), "http://"@) || has_prefix(
            lowered(trimmed(url)),
            "https://"@,
        ) <==> scheme_of(url) == Some(TrackerScheme::Http),
{
    reveal_strlit("udp://");
    reveal_strlit("http://");
    reveal_strlit("https://");
    let u = lowered(trimmed(url));
    if has_prefix(u, "udp://"@) {
        assert(u.subrange(0, 6)[0] == 'u');
    }
    if has_prefix(u, "http://"@) {
        assert(u.subrange(0, 7)[0] == 'h');
    }
    if has_prefix(u, "https://"@) {
        assert(u.subrange(0, 8)[0] == 'h');
    }
}

} // verus!

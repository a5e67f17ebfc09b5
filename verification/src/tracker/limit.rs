//! How many announces run at a time against one tracker host.
use crate::text::{
    chars_of, decimal, lowered, push_decimal, same_text, to_lower, trim, trimmed,
};
use vstd::prelude::*;

verus! {

/// Permits of one host that are out.
struct HostSem {
    key: String,
    used: usize,
}

/// A gate that lets at most `max` announces run at a time per host.
pub struct HostLimiter {
    max: usize,
    hosts: Vec<HostSem>,
}

/// The right to run one announce; it is handed back with [`HostLimiter::release`].
pub struct HostPermit {
    host: Option<usize>,
}

impl HostPermit {
    /// Whether a slot of a host is taken by it.
    pub closed spec fn counted(&self) -> bool {
        self.host is Some
    }
}

/// Place of a host's entry.
spec fn place(hosts: Seq<HostSem>, key: Seq<char>) -> Option<int> {
    if exists|i: int| 0 <= i < hosts.len() && (#[trigger] hosts[i]).key@ == key {
        Some(choose|i: int| 0 <= i < hosts.len() && (#[trigger] hosts[i]).key@ == key)
    } else {
        None
    }
}

impl HostLimiter {
    /// Every host has one entry, and none runs more than the limit.
    pub closed spec fn wf(&self) -> bool {
        &&& forall|i: int, j: int|
            0 <= i < j < self.hosts@.len() ==> (#[trigger] self.hosts@[i]).key@ != (
            #[trigger] self.hosts@[j]).key@
        &&& forall|i: int|
            0 <= i < self.hosts@.len() ==> (#[trigger] self.hosts@[i]).used <= self.max
    }

    /// The limit; zero stands for none.
    pub closed spec fn limit(&self) -> usize {
        self.max
    }

    /// Announces that run against a host.
    pub closed spec fn running(&self, key: Seq<char>) -> nat {
        match place(self.hosts@, key) {
            Some(i) => self.hosts@[i].used as nat,
            None => 0,
        }
    }

    /// The host whose slot a permit takes.
    pub closed spec fn host_of(&self, permit: HostPermit) -> Seq<char> {
        self.hosts@[permit.host->0 as int].key@
    }

    /// Whether a permit belongs to this gate.
    pub closed spec fn issued(&self, permit: HostPermit) -> bool {
        permit.host matches Some(i) ==> i < self.hosts@.len() && self.hosts@[i as int].used > 0
    }

    proof fn place_is(&self, i: int)
        requires
            self.wf(),
            0 <= i < self.hosts@.len(),
        ensures
            place(self.hosts@, self.hosts@[i].key@) == Some(i),
    {
    }

    /// A gate that lets `max_concurrent_per_host` announces run per host; zero lets all run.
    pub fn new(max_concurrent_per_host: usize) -> (r: HostLimiter)
        ensures
            r.wf(),
            r.limit() == max_concurrent_per_host,
            forall|k: Seq<char>| #[trigger] r.running(k) == 0,
    {
        HostLimiter { max: max_concurrent_per_host, hosts: Vec::new() }
    }

    /// The limit per host.
    pub fn max_per_host(&self) -> (r: usize)
        ensures
            r == self.limit(),
    {
        self.max
    }

    fn sem_for(&mut self, host_key: &str) -> (r: usize)
        requires
            old(self).wf(),
        ensures
            final(self).wf(),
            final(self).max == old(self).max,
            r < final(self).hosts@.len(),
            final(self).hosts@[r as int].key@ == host_key@,
            final(self).hosts@[r as int].used == old(self).running(host_key@),
            old(self).hosts@.is_prefix_of(final(self).hosts@),
            forall|k: Seq<char>| #[trigger] final(self).running(k) == old(self).running(k),
    {
        let ghost before = *self;
        let mut i: usize = 0;
        while i < self.hosts.len()
            invariant
                *self == before,
                self.wf(),
                i <= self.hosts@.len(),
                forall|j: int| 0 <= j < i ==> (#[trigger] self.hosts@[j]).key@ != host_key@,
            decreases self.hosts@.len() - i,
        {
            if same_text(self.hosts[i].key.as_str(), host_key) {
                proof {
                    self.place_is(i as int);
                    assert(self.hosts@.subrange(0, self.hosts@.len() as int) =~= self.hosts@);
                }
                return i;
            }
            i += 1;
        }
        self.hosts.push(HostSem { key: host_key.to_owned(), used: 0 });
        proof {
            assert(self.hosts@.subrange(0, before.hosts@.len() as int) =~= before.hosts@);
            assert forall|k: Seq<char>| #[trigger] self.running(k) == before.running(k) by {
                match place(before.hosts@, k) {
                    Some(j) => {
                        assert(self.hosts@[j] == before.hosts@[j]);
                        self.place_is(j);
                    },
                    None => {
                        assert forall|j: int| 0 <= j < before.hosts@.len() implies (
                        #[trigger] self.hosts@[j]).key@ != k by {
                            assert(self.hosts@[j] == before.hosts@[j]);
                        }
                        if k == host_key@ {
                            self.place_is(i as int);
                        }
                    },
                }
            }
        }
        i
    }

    /// Take a slot of `host_key`: a permit comes where one is free, or where no limit holds.
    pub fn acquire(&mut self, host_key: &str) -> (r: Option<HostPermit>)
        requires
            old(self).wf(),
        ensures
            final(self).wf(),
            final(self).limit() == old(self).limit(),
            r is Some <==> old(self).limit() == 0 || host_key@.len() == 0 || old(self).running(
                host_key@,
            ) < old(self).limit(),
            r matches Some(p) ==> final(self).issued(p) && (p.counted() <==> old(self).limit() != 0
                && host_key@.len() != 0) && (p.counted() ==> final(self).host_of(p) == host_key@),
            forall|k: Seq<char>| #[trigger]
                final(self).running(k) == old(self).running(k) + if k == host_key@ && r is Some
                    && r->0.counted() {
                    1int
                } else {
                    0
                },
            // Permits that are out stay good.
            forall|q: HostPermit| #[trigger]
                old(self).issued(q) ==> final(self).issued(q) && (q.counted()
                    ==> final(self).host_of(q) == old(self).host_of(q)),
    {
        if self.max == 0 || host_key.is_empty() {
            return Some(HostPermit { host: None });
        }
        let i: usize = self.sem_for(host_key);
        let ghost mid = *self;
        proof {
            self.place_is(i as int);
            let n = old(self).hosts@.len() as int;
            assert forall|j: int| 0 <= j < n implies #[trigger] self.hosts@[j] == old(
                self,
            ).hosts@[j] by {
                assert(self.hosts@.subrange(0, n)[j] == old(self).hosts@[j]);
            }
        }
        if self.hosts[i].used >= self.max {
            return None;
        }
        self.hosts[i].used = self.hosts[i].used + 1;
        proof {
            mid.counting(*self, i as int);
        }
        Some(HostPermit { host: Some(i) })
    }

    proof fn counting(&self, after: HostLimiter, i: int)
        requires
            self.wf(),
            after.wf(),
            0 <= i < self.hosts@.len(),
            after.hosts@.len() == self.hosts@.len(),
            forall|j: int|
                0 <= j < self.hosts@.len() ==> (#[trigger] after.hosts@[j]).key@
                    == self.hosts@[j].key@ && (j != i ==> after.hosts@[j].used
                    == self.hosts@[j].used),
        ensures
            forall|k: Seq<char>| #[trigger]
                after.running(k) == if k == self.hosts@[i].key@ {
                    after.hosts@[i].used as nat
                } else {
                    self.running(k)
                },
    {
        assert forall|k: Seq<char>| #[trigger] after.running(k) == if k == self.hosts@[i].key@ {
            after.hosts@[i].used as nat
        } else {
            self.running(k)
        } by {
            match place(self.hosts@, k) {
                Some(j) => {
                    assert(after.hosts@[j].key@ == self.hosts@[j].key@);
                    after.place_is(j);
                    self.place_is(j);
                    self.place_is(i);
                },
                None => {
                    assert forall|j: int| 0 <= j < after.hosts@.len() implies (
                    #[trigger] after.hosts@[j]).key@ != k by {
                        assert(self.hosts@[j].key@ != k);
                    }
                    assert(self.hosts@[i].key@ != k);
                },
            }
        }
    }

    /// Hand a permit back: its host's slot is free again. The other permits stay good; one
    /// for the same host is out where more than one announce runs there.
    pub fn release(&mut self, permit: HostPermit)
        requires
            old(self).wf(),
            old(self).issued(permit),
        ensures
            final(self).wf(),
            final(self).limit() == old(self).limit(),
            forall|k: Seq<char>| #[trigger]
                final(self).running(k) == old(self).running(k) - if permit.counted() && k == old(
                    self,
                ).host_of(permit) {
                    1int
                } else {
                    0
                },
            forall|q: HostPermit| #[trigger]
                old(self).issued(q) && (permit.counted() && q.counted() && old(self).host_of(q)
                    == old(self).host_of(permit) ==> old(self).running(old(self).host_of(permit))
                    > 1) ==> final(self).issued(q) && (q.counted() ==> final(self).host_of(q)
                    == old(self).host_of(q)),
    {
        if let Some(i) = permit.host {
            let ghost before = *self;
            self.hosts[i].used = self.hosts[i].used - 1;
            proof {
                before.place_is(i as int);
                before.counting(*self, i as int);
            }
        }
    }

    /// No more announces run against a host than the limit allows.
    pub proof fn never_over_the_limit(&self, key: Seq<char>)
        requires
            self.wf(),
        ensures
            self.running(key) <= self.limit(),
    {
    }
}

/// Host and port of an address, where it can be read as one.
pub uninterp spec fn url_parts(s: Seq<char>) -> Option<(Option<Seq<char>>, Option<u16>)>;

/// `url::Url::parse`, and of what it reads `Url::host_str` and `Url::port_or_known_default`:
/// the three are named together as [`url_parts`].
#[verifier::external_body]
pub(crate) fn parse_url(s: &str) -> (r: Option<(Option<String>, Option<u16>)>)
    ensures
        match r {
            Some((h, p)) => url_parts(s@) == Some(
                (
                    match h {
                        Some(t) => Some(t@),
                        None => None,
                    },
                    p,
                ),
            ),
            None => url_parts(s@) is None,
        },
{
    match url::Url::parse(s) {
        Ok(u) => Some((u.host_str().map(String::from), u.port_or_known_default())),
        Err(_) => None,
    }
}

/// Whether an address names its protocol.
pub open spec fn names_scheme(s: Seq<char>) -> bool {
    exists|i: int| 0 <= i <= s.len() - 3 && #[trigger] s[i] == ':' && s[i + 1] == '/' && s[i + 2] == '/'
}

/// The address that is read for its host.
pub open spec fn host_candidate(raw: Seq<char>) -> Seq<char> {
    if names_scheme(raw) {
        raw
    } else {
        "http://"@ + raw
    }
}

/// The key of a trimmed address that was read as `parts`.
pub open spec fn key_of(
    raw: Seq<char>,
    parts: Option<(Option<Seq<char>>, Option<u16>)>,
) -> Seq<char> {
    match parts {
        Some((Some(h), p)) => if h.len() == 0 {
            lowered(raw)
        } else {
            lowered(h) + ":"@ + decimal(
                match p {
                    Some(n) => n as nat,
                    None => 80,
                },
            )
        },
        _ => lowered(raw),
    }
}

fn has_scheme(raw: &str) -> (r: bool)
    ensures
        r == names_scheme(raw@),
{
    let v: Vec<char> = chars_of(raw);
    let n: usize = v.len();
    let mut i: usize = 0;
    while i < n
        invariant
            i <= n,
            n == v@.len(),
            v@ == raw@,
            forall|j: int|
                0 <= j < i && j <= v@.len() - 3 ==> !(#[trigger] v@[j] == ':' && v@[j + 1] == '/'
                    && v@[j + 2] == '/'),
        decreases n - i,
    {
        if n - i >= 3 && v[i] == ':' && v[i + 1] == '/' && v[i + 2] == '/' {
            return true;
        }
        i += 1;
    }
    false
}

/// The key of an address that was read as `parts`: its host in lower case and its port, or
/// the whole address in lower case.
pub fn host_key_from(raw: &str, parts: Option<(Option<String>, Option<u16>)>) -> (r: String)
    ensures
        r@ == key_of(
            raw@,
            match parts {
                Some((h, p)) => Some(
                    (
                        match h {
                            Some(t) => Some(t@),
                            None => None,
                        },
                        p,
                    ),
                ),
                None => None,
            },
        ),
{
    if let Some((Some(h), p)) = parts {
        if h.as_str().is_empty() {
            return to_lower(raw);
        }
        let port: u16 = match p {
            Some(n) => n,
            None => 80,
        };
        let mut out = to_lower(h.as_str());
        out.append(":");
        push_decimal(&mut out, port as u64);
        return out;
    }
    to_lower(raw)
}

/// The key that announces to an address are counted under. Addresses that cannot be read
/// are counted under their own text.
pub fn tracker_host_key(announce_url: &str) -> (r: String)
    ensures
        r@ == if trimmed(announce_url@).len() == 0 {
            Seq::empty()
        } else {
            key_of(trimmed(announce_url@), url_parts(host_candidate(trimmed(announce_url@))))
        },
{
    let raw = trim(announce_url);
    if raw.as_str().is_empty() {
        return String::new();
    }
    if has_scheme(raw.as_str()) {
        let parts = parse_url(raw.as_str());
        return host_key_from(raw.as_str(), parts);
    }
    let mut candidate = String::new();
    candidate.append("http://");
    candidate.append(raw.as_str());
    assert(candidate@ =~= "http://"@ + raw@);
    let parts = parse_url(candidate.as_str());
    host_key_from(raw.as_str(), parts)
}

/// An address names its protocol where `://` stands in it; one that does not is read as one of
/// HTTP.
pub proof fn addresses_without_a_protocol_are_http(a: Seq<char>, b: Seq<char>)
    ensures
        names_scheme(a + "://"@ + b),
        host_candidate(a + "://"@ + b) == a + "://"@ + b,
        !names_scheme(a) ==> host_candidate(a) == "http://"@ + a,
        (forall|i: int| 0 <= i < a.len() ==> #[trigger] a[i] != ':') ==> !names_scheme(a),
{
    reveal_strlit("://");
    let s = a + "://"@ + b;
    let n = a.len() as int;
    assert(s[n] == ':' && s[n + 1] == '/' && s[n + 2] == '/');
}

/// Announces are counted under the host in lower case and its port, which is 80 where none is
/// known; an address without a host is counted under its own text in lower case.
pub proof fn hosts_are_told_in_lower_case(raw: Seq<char>, other: Seq<char>, h: Seq<char>, p: u16)
    requires
        h.len() > 0,
    ensures
        key_of(raw, Some((Some(h), Some(p)))) == lowered(h) + ":"@ + decimal(p as nat),
        key_of(raw, Some((Some(h), None))) == lowered(h) + ":"@ + decimal(80),
        key_of(raw, Some((Some(h), Some(p)))) == key_of(other, Some((Some(h), Some(p)))),
        key_of(raw, Some((None, Some(p)))) == lowered(raw),
        key_of(raw, None) == lowered(raw),
        key_of(raw, Some((Some(Seq::<char>::empty()), Some(p)))) == lowered(raw),
{
}

} // verus!

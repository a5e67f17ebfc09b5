//! Which addresses are dialed.
use crate::net::PeerAddr;
use rand::seq::SliceRandom;
use vstd::prelude::*;

verus! {

/// Addresses kept for each torrent.
pub const PEER_CACHE_KEEP: usize = 200;

/// Kept addresses that are taken into account for dialing.
pub const PEER_CACHE_DIAL_LOAD: usize = 80;

/// `SliceRandom::shuffle` with `rand::rng()`: the same addresses in any order.
#[verifier::external_body]
pub(crate) fn shuffle(v: &mut Vec<PeerAddr>)
    ensures
        final(v)@.to_multiset() == old(v)@.to_multiset(),
{
    v.shuffle(&mut rand::rng());
}

/// The first `n` addresses without those that came before.
pub open spec fn uniques(s: Seq<PeerAddr>, n: int) -> Seq<PeerAddr>
    decreases n,
{
    if n <= 0 {
        Seq::empty()
    } else if uniques(s, n - 1).contains(s[n - 1]) {
        uniques(s, n - 1)
    } else {
        uniques(s, n - 1).push(s[n - 1])
    }
}

/// Number of addresses out of `n`, at least one where there is one.
pub open spec fn dial_count(n: int, max: usize) -> int {
    let m = if max == 0 {
        1
    } else {
        max as int
    };
    if n < m {
        n
    } else {
        m
    }
}

/// The addresses to dial: the manual ones first, then the cached ones, then the tracker's,
/// each once, up to a number.
pub open spec fn dial_list(
    manual: Seq<PeerAddr>,
    cached: Seq<PeerAddr>,
    tracker: Seq<PeerAddr>,
    max: usize,
) -> Seq<PeerAddr> {
    let all = manual + cached + tracker;
    let u = uniques(all, all.len() as int);
    u.subrange(0, dial_count(u.len() as int, max))
}

proof fn uniques_prefix(s: Seq<PeerAddr>, i: int, n: int)
    requires
        0 <= i <= n <= s.len(),
    ensures
        uniques(s, i).len() <= uniques(s, n).len(),
        uniques(s, n).subrange(0, uniques(s, i).len() as int) == uniques(s, i),
    decreases n,
{
    if i < n {
        uniques_prefix(s, i, n - 1);
        let a = uniques(s, i);
        let p = uniques(s, n - 1);
        assert(uniques(s, n).subrange(0, a.len() as int) =~= p.subrange(0, a.len() as int));
    } else {
        assert(uniques(s, n).subrange(0, uniques(s, i).len() as int) =~= uniques(s, i));
    }
}

proof fn uniques_of_prefix(s: Seq<PeerAddr>, more: Seq<PeerAddr>, n: int)
    requires
        0 <= n <= s.len(),
    ensures
        uniques(s + more, n) == uniques(s, n),
    decreases n,
{
    if n > 0 {
        uniques_of_prefix(s, more, n - 1);
        assert((s + more)[n - 1] == s[n - 1]);
    }
}

/// No address is dialed twice, and each is one of those given. Manual addresses come before
/// all others.
pub proof fn manual_peers_come_first(
    manual: Seq<PeerAddr>,
    cached: Seq<PeerAddr>,
    tracker: Seq<PeerAddr>,
    max: usize,
)
    ensures
        dial_list(manual, cached, tracker, max).no_duplicates(),
        forall|a: PeerAddr| #[trigger]
            dial_list(manual, cached, tracker, max).contains(a) ==> manual.contains(a)
                || cached.contains(a) || tracker.contains(a),
        ({
            let first = uniques(manual, manual.len() as int);
            let all = dial_list(manual, cached, tracker, max);
            forall|i: int| 0 <= i < first.len() && i < all.len() ==> #[trigger] all[i] == first[i]
        }),
{
    let all = manual + cached + tracker;
    let n = all.len() as int;
    uniques_facts(all, n);
    let u = uniques(all, n);
    let r = dial_list(manual, cached, tracker, max);
    assert forall|a: PeerAddr| #[trigger] r.contains(a) implies manual.contains(a)
        || cached.contains(a) || tracker.contains(a) by {
        let i = r.index_of(a);
        assert(u[i] == a);
        assert(u.contains(u[i]));
        let j = choose|j: int| 0 <= j < n && all[j] == a;
        if j < manual.len() {
            assert(manual[j] == a);
        } else if j < manual.len() + cached.len() {
            assert(cached[j - manual.len()] == a);
        } else {
            assert(tracker[j - manual.len() - cached.len()] == a);
        }
    }
    let k = manual.len() as int;
    assert(all =~= manual + (cached + tracker));
    uniques_of_prefix(manual, cached + tracker, k);
    uniques_prefix(all, k, n);
    let first = uniques(manual, k);
    assert forall|i: int| 0 <= i < first.len() && i < r.len() implies #[trigger] r[i] == first[i] by {
        assert(u.subrange(0, first.len() as int)[i] == first[i]);
    }
}

proof fn uniques_facts(s: Seq<PeerAddr>, n: int)
    requires
        0 <= n <= s.len(),
    ensures
        uniques(s, n).no_duplicates(),
        forall|a: PeerAddr| #[trigger]
            uniques(s, n).contains(a) ==> exists|j: int| 0 <= j < n && s[j] == a,
    decreases n,
{
    if n > 0 {
        uniques_facts(s, n - 1);
        let p = uniques(s, n - 1);
        let x = s[n - 1];
        if !p.contains(x) {
            let q = p.push(x);
            assert forall|i: int, j: int| 0 <= i < q.len() && 0 <= j < q.len() && i
                != j implies q[i] != q[j] by {
                if i == p.len() {
                    assert(p.contains(p[j]));
                } else if j == p.len() {
                    assert(p.contains(p[i]));
                }
            }
            assert forall|a: PeerAddr| #[trigger] q.contains(a) implies exists|j: int|
                0 <= j < n && s[j] == a by {
                let i = q.index_of(a);
                if i < p.len() {
                    assert(p[i] == a);
                    assert(p.contains(a));
                    let j = choose|j: int| 0 <= j < n - 1 && s[j] == a;
                    assert(0 <= j < n && s[j] == a);
                } else {
                    assert(s[n - 1] == a);
                }
            }
        } else {
            assert forall|a: PeerAddr| #[trigger] p.contains(a) implies exists|j: int|
                0 <= j < n && s[j] == a by {
                let j = choose|j: int| 0 <= j < n - 1 && s[j] == a;
                assert(0 <= j < n && s[j] == a);
            }
        }
    }
}

/// Whether an address is in a list.
pub fn has_addr(v: &Vec<PeerAddr>, a: PeerAddr) -> (r: bool)
    ensures
        r == v@.contains(a),
{
    let mut i: usize = 0;
    while i < v.len()
        invariant
            i <= v@.len(),
            forall|j: int| 0 <= j < i ==> v@[j] != a,
        decreases v@.len() - i,
    {
        if v[i] == a {
            return true;
        }
        i += 1;
    }
    false
}

/// The addresses to dial, from lists in the order in which they are to be tried.
pub fn merge_in_order(
    manual: &[PeerAddr],
    cached: &Vec<PeerAddr>,
    tracker: &Vec<PeerAddr>,
    max: usize,
) -> (out: Vec<PeerAddr>)
    ensures
        out@ == dial_list(manual@, cached@, tracker@, max),
{
    let limit: usize = if max == 0 {
        1
    } else {
        max
    };
    let ghost all = manual@ + cached@ + tracker@;
    let ghost n = all.len() as int;
    let mut out: Vec<PeerAddr> = Vec::new();
    let mut lists: usize = 0;
    let ghost mut done: int = 0;
    while lists < 3
        invariant
            lists <= 3,
            limit == if max == 0 {
                1
            } else {
                max
            },
            all == manual@ + cached@ + tracker@,
            n == all.len(),
            0 <= done <= n,
            done == if lists == 0 {
                0
            } else if lists == 1 {
                manual@.len() as int
            } else if lists == 2 {
                (manual@.len() + cached@.len()) as int
            } else {
                n
            },
            out@ == uniques(all, done),
            out@.len() < limit,
        decreases 3 - lists,
    {
        let len: usize = if lists == 0 {
            manual.len()
        } else if lists == 1 {
            cached.len()
        } else {
            tracker.len()
        };
        let ghost base = done;
        let mut i: usize = 0;
        while i < len
            invariant
                i <= len,
                lists < 3,
                limit == if max == 0 {
                1
            } else {
                max
            },
                all == manual@ + cached@ + tracker@,
                n == all.len(),
                base == if lists == 0 {
                    0
                } else if lists == 1 {
                    manual@.len() as int
                } else {
                    (manual@.len() + cached@.len()) as int
                },
                len == if lists == 0 {
                    manual@.len()
                } else if lists == 1 {
                    cached@.len()
                } else {
                    tracker@.len()
                },
                out@ == uniques(all, base + i),
                out@.len() < limit,
            decreases len - i,
        {
            let a: PeerAddr = if lists == 0 {
                manual[i]
            } else if lists == 1 {
                cached[i]
            } else {
                tracker[i]
            };
            assert(a == all[base + i]);
            if !has_addr(&out, a) {
                out.push(a);
                if out.len() >= limit {
                    proof {
                        uniques_prefix(all, base + i + 1, n);
                        assert(out@ =~= uniques(all, n).subrange(
                            0,
                            dial_count(uniques(all, n).len() as int, max),
                        ));
                    }
                    return out;
                }
            }
            i += 1;
        }
        proof {
            done = base + len;
        }
        lists += 1;
    }
    assert(out@ =~= uniques(all, n).subrange(0, dial_count(uniques(all, n).len() as int, max)));
    out
}

/// The addresses to dial: manual ones in their order, then the cached ones and the tracker's,
/// each of these lists in an order drawn at random.
pub fn merge_outbound_peers(
    manual: &[PeerAddr],
    tracker: Vec<PeerAddr>,
    cached: Vec<PeerAddr>,
    max: usize,
) -> (out: Vec<PeerAddr>)
    ensures
        exists|c: Seq<PeerAddr>, t: Seq<PeerAddr>|
            c.to_multiset() == cached@.to_multiset() && t.to_multiset() == tracker@.to_multiset()
                && out@ == #[trigger] dial_list(manual@, c, t, max),
{
    let mut cache = cached;
    let mut track = tracker;
    shuffle(&mut cache);
    shuffle(&mut track);
    merge_in_order(manual, &cache, &track, max)
}

/// Each address that comes is taken once.
proof fn uniques_hold_all(s: Seq<PeerAddr>, n: int, i: int)
    requires
        0 <= i < n <= s.len(),
    ensures
        uniques(s, n).contains(s[i]),
    decreases n,
{
    let p = uniques(s, n - 1);
    if i == n - 1 {
        if !p.contains(s[i]) {
            assert(uniques(s, n)[p.len() as int] == s[i]);
        }
    } else {
        uniques_hold_all(s, n - 1, i);
        let k = choose|k: int| 0 <= k < p.len() && p[k] == s[i];
        assert(uniques(s, n)[k] == s[i]);
    }
}

/// No address is left out while fewer than the most are dialed, no more than the most are,
/// and one is where there is one. Cached addresses come before those of the tracker.
pub proof fn no_address_is_left_out(
    manual: Seq<PeerAddr>,
    cached: Seq<PeerAddr>,
    tracker: Seq<PeerAddr>,
    max: usize,
    a: PeerAddr,
)
    ensures
        ({
            let all = dial_list(manual, cached, tracker, max);
            let known = manual.contains(a) || cached.contains(a) || tracker.contains(a);
            &&& max > 0 ==> all.len() <= max
            &&& max == 0 ==> all.len() <= 1
            &&& known && all.len() < max ==> all.contains(a)
            &&& known ==> all.len() > 0
        }),
        ({
            let head = manual + cached;
            let first = uniques(head, head.len() as int);
            let all = dial_list(manual, cached, tracker, max);
            forall|i: int| 0 <= i < first.len() && i < all.len() ==> #[trigger] all[i] == first[i]
        }),
{
    let s = manual + cached + tracker;
    let n = s.len() as int;
    let u = uniques(s, n);
    let all = dial_list(manual, cached, tracker, max);
    if manual.contains(a) || cached.contains(a) || tracker.contains(a) {
        let i = if manual.contains(a) {
            manual.index_of(a)
        } else if cached.contains(a) {
            manual.len() + cached.index_of(a)
        } else {
            manual.len() + cached.len() + tracker.index_of(a)
        };
        assert(s[i] == a);
        uniques_hold_all(s, n, i);
        if all.len() < max {
            assert(all =~= u);
        }
    }
    let head = manual + cached;
    let h = head.len() as int;
    uniques_of_prefix(head, tracker, h);
    uniques_prefix(s, h, n);
    let first = uniques(head, h);
    assert forall|i: int| 0 <= i < first.len() && i < all.len() implies #[trigger] all[i]
        == first[i] by {
        assert(u.subrange(0, first.len() as int)[i] == u[i]);
    }
}

/// As many addresses are dialed as are there and may be, at least one where there is one.
pub proof fn as_many_are_dialed_as_may_be(n: int, max: usize)
    requires
        0 <= n,
    ensures
        dial_count(n, max) <= n,
        max > 0 ==> dial_count(n, max) <= max,
        max > 0 && n <= max ==> dial_count(n, max) == n,
        max > 0 && n > max ==> dial_count(n, max) == max,
        n > 0 ==> dial_count(n, max) >= 1,
        n > 0 ==> dial_count(n, 0) == 1,
        dial_count(0, max) == 0,
{
}

} // verus!

//! Which of a host's addresses are used.
use crate::error::{Error, Result};
use crate::net::{Ip, PeerAddr};
use crate::text::{decimal, push_decimal};
use vstd::prelude::*;

verus! {

/// The first `max` IPv4 addresses of `found`, with a port.
pub open spec fn first_v4(found: Seq<Ip>, port: u16, max: nat) -> Seq<PeerAddr>
    decreases found.len(),
{
    if found.len() == 0 {
        Seq::empty()
    } else {
        let before = first_v4(found.drop_last(), port, max);
        if found.last() is V4 && before.len() < max {
            before.push(found.last().spec_at(port))
        } else {
            before
        }
    }
}

proof fn first_v4_is_full(found: Seq<Ip>, port: u16, max: nat, n: int)
    requires
        0 <= n <= found.len(),
        first_v4(found.subrange(0, n), port, max).len() >= max,
    ensures
        first_v4(found, port, max) == first_v4(found.subrange(0, n), port, max),
    decreases found.len(),
{
    if n == found.len() {
        assert(found.subrange(0, n) =~= found);
    } else {
        assert(found.drop_last().subrange(0, n) =~= found.subrange(0, n));
        first_v4_is_full(found.drop_last(), port, max, n);
    }
}

/// How many addresses are taken at most: one where none is asked for.
pub open spec fn at_least_one(max: usize) -> nat {
    if max == 0 {
        1
    } else {
        max as nat
    }
}

/// The addresses to use for `host`: the address that it writes, where it writes one, else
/// the first IPv4 addresses among those `found` for its name.
pub fn resolve_ipv4(
    host: &str,
    port: u16,
    max: usize,
    literal: Option<Ip>,
    found: &[Ip],
) -> (r: Result<Vec<PeerAddr>>)
    ensures
        r matches Ok(v) ==> match literal {
            Some(ip) => v@ == seq![ip.spec_at(port)],
            None => v@ == first_v4(found@, port, at_least_one(max)) && v@.len() > 0,
        },
        r matches Err(e) ==> literal is None && first_v4(
            found@,
            port,
            at_least_one(max),
        ).len() == 0 && e is Msg && e.text() == "dns no IPv4 addresses for "@ + host@ + ":"@
            + decimal(port as nat),
{
    if let Some(ip) = literal {
        let mut v: Vec<PeerAddr> = Vec::new();
        v.push(ip.at(port));
        assert(v@ =~= seq![ip.spec_at(port)]);
        return Ok(v);
    }
    let m: usize = if max == 0 {
        1
    } else {
        max
    };
    let mut v: Vec<PeerAddr> = Vec::new();
    let mut i: usize = 0;
    assert(found@.subrange(0, 0) =~= Seq::<Ip>::empty());
    while i < found.len() && v.len() < m
        invariant
            i <= found@.len(),
            m == at_least_one(max),
            v@ == first_v4(found@.subrange(0, i as int), port, m as nat),
        decreases found@.len() - i,
    {
        assert(found@.subrange(0, i + 1).drop_last() =~= found@.subrange(0, i as int));
        match found[i] {
            Ip::V4(_) => {
                v.push(found[i].at(port));
            },
            Ip::V6(_) => {},
        }
        i += 1;
    }
    proof {
        if i < found@.len() {
            first_v4_is_full(found@, port, m as nat, i as int);
        } else {
            assert(found@.subrange(0, i as int) =~= found@);
        }
    }
    if v.len() == 0 {
        let mut t = String::new();
        t.append("dns no IPv4 addresses for ");
        t.append(host);
        t.append(":");
        push_decimal(&mut t, port as u64);
        assert(t@ =~= "dns no IPv4 addresses for "@ + host@ + ":"@ + decimal(port as nat));
        return Err(Error::Msg(t));
    }
    Ok(v)
}

/// A name gives at most as many addresses as are asked for, all of them IPv4.
pub proof fn only_v4_is_used(found: Seq<Ip>, port: u16, max: nat)
    ensures
        first_v4(found, port, max).len() <= max,
        forall|i: int|
            0 <= i < first_v4(found, port, max).len() ==> (#[trigger] first_v4(
                found,
                port,
                max,
            )[i]) is V4,
    decreases found.len(),
{
    if found.len() > 0 {
        only_v4_is_used(found.drop_last(), port, max);
    }
}

/// The first IPv4 addresses are used, in the order in which they were found: one more of them
/// is used while there are fewer than asked for, and other addresses make no difference.
pub proof fn v4_addresses_are_used_in_order(found: Seq<Ip>, port: u16, max: nat, ip: u32, v6: u128)
    ensures
        first_v4(found, port, max).len() < max ==> first_v4(found.push(Ip::V4(ip)), port, max)
            == first_v4(found, port, max).push(PeerAddr::V4 { ip, port }),
        first_v4(found, port, max).len() >= max ==> first_v4(found.push(Ip::V4(ip)), port, max)
            == first_v4(found, port, max),
        first_v4(found.push(Ip::V6(v6)), port, max) == first_v4(found, port, max),
        first_v4(Seq::<Ip>::empty(), port, max).len() == 0,
        at_least_one(0) == 1,
        forall|m: usize| m > 0 ==> #[trigger] at_least_one(m) == m,
{
    assert(found.push(Ip::V4(ip)).drop_last() =~= found);
    assert(found.push(Ip::V6(v6)).drop_last() =~= found);
}

} // verus!

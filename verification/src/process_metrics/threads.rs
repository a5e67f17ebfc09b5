//! Threads of the process, grouped by what they do.
//!
//! Times are in the system's own unit, as counted since a thread began.
use crate::process_metrics::{
    comes_before, pretty_thread_name, text_before, text_before_is_total, text_before_is_transitive,
    thread_label,
};
use crate::text::same_text;
use std::collections::HashMap;
use vstd::prelude::*;

verus! {

broadcast use vstd::std_specs::hash::group_hash_axioms;

/// A thread, as the system tells of it.
#[derive(Debug)]
pub struct ThreadSample {
    pub tid: u64,
    /// Its name; empty where it could not be read.
    pub name: String,
    /// Time that it has used.
    pub counter: u64,
}

/// Threads that do the same.
#[derive(Debug)]
pub struct ThreadGroup {
    pub name: String,
    pub count: u32,
    /// Time that they used since the last sample.
    pub spent: u64,
}

/// A [`ThreadGroup`] with its name as a sequence.
pub struct GroupView {
    pub name: Seq<char>,
    pub count: u32,
    pub spent: u64,
}

impl View for ThreadGroup {
    type V = GroupView;

    open spec fn view(&self) -> GroupView {
        GroupView { name: self.name@, count: self.count, spent: self.spent }
    }
}

/// What a sample of the threads shows.
#[derive(Debug)]
pub struct ThreadTotals {
    pub groups: Vec<ThreadGroup>,
    /// Number of threads with a name, where there is one.
    pub threads: Option<u32>,
    /// Whether any thread was there at the last sample, so that times can be told.
    pub ready: bool,
    /// Time that all threads used since the last sample.
    pub spent: u64,
}

/// Time that a thread used since the last sample; nothing where it is new.
pub open spec fn spent_by(t: ThreadSample, prev: Map<u64, u64>, timed: bool) -> nat {
    if timed && prev.dom().contains(t.tid) && t.counter > prev[t.tid] {
        (t.counter - prev[t.tid]) as nat
    } else {
        0
    }
}

/// Whether a thread is counted in a group. Without a label, every thread with a name is.
pub open spec fn counts_in(t: ThreadSample, label: Option<Seq<char>>) -> bool {
    t.name@.len() > 0 && (label matches Some(l) ==> thread_label(t.name@) == l)
}

/// Number of threads of a group among the first `n`.
pub open spec fn group_size(threads: Seq<ThreadSample>, n: int, label: Option<Seq<char>>) -> nat
    decreases n,
{
    if n <= 0 {
        0
    } else {
        group_size(threads, n - 1, label) + if counts_in(threads[n - 1], label) {
            1nat
        } else {
            0nat
        }
    }
}

/// Time that a group among the first `n` threads used since the last sample.
pub open spec fn group_spent(
    threads: Seq<ThreadSample>,
    n: int,
    label: Option<Seq<char>>,
    prev: Map<u64, u64>,
    timed: bool,
) -> nat
    decreases n,
{
    if n <= 0 {
        0
    } else {
        group_spent(threads, n - 1, label, prev, timed) + if counts_in(threads[n - 1], label) {
            spent_by(threads[n - 1], prev, timed)
        } else {
            0nat
        }
    }
}

/// A time, as far as it can be counted.
pub open spec fn counted(n: nat) -> u64 {
    if n > u64::MAX {
        u64::MAX
    } else {
        n as u64
    }
}

/// What the first `n` threads have used, to be compared with the next sample.
pub open spec fn counters(threads: Seq<ThreadSample>, n: int) -> Map<u64, u64>
    decreases n,
{
    if n <= 0 {
        Map::empty()
    } else if threads[n - 1].name@.len() > 0 {
        counters(threads, n - 1).insert(threads[n - 1].tid, threads[n - 1].counter)
    } else {
        counters(threads, n - 1)
    }
}

/// Whether any of the first `n` threads was there at the last sample.
pub open spec fn any_known(
    threads: Seq<ThreadSample>,
    n: int,
    prev: Map<u64, u64>,
    timed: bool,
) -> bool {
    timed && exists|i: int|
        0 <= i < n && (#[trigger] threads[i]).name@.len() > 0 && prev.dom().contains(
            threads[i].tid,
        )
}

/// The group of a label among the first `n` threads.
pub open spec fn group_of(
    threads: Seq<ThreadSample>,
    n: int,
    label: Seq<char>,
    prev: Map<u64, u64>,
    timed: bool,
) -> GroupView {
    GroupView {
        name: label,
        count: group_size(threads, n, Some(label)) as u32,
        spent: counted(group_spent(threads, n, Some(label), prev, timed)),
    }
}

/// A group is shown before another one: the busier one first, then the larger one, then in
/// the order of their names.
pub open spec fn group_before(a: GroupView, b: GroupView) -> bool {
    if a.spent != b.spent {
        a.spent > b.spent
    } else if a.count != b.count {
        a.count > b.count
    } else {
        text_before(a.name, b.name)
    }
}

/// The names and numbers of groups.
pub open spec fn group_views(v: Seq<ThreadGroup>) -> Seq<GroupView> {
    v.map_values(|g: ThreadGroup| g@)
}

/// No two groups have the same name.
pub open spec fn names_differ(s: Seq<GroupView>) -> bool {
    forall|i: int, j: int|
        0 <= i < j < s.len() ==> (#[trigger] s[i]).name != (#[trigger] s[j]).name
}

/// The groups of the first `n` threads, in any order.
pub open spec fn groups_are(
    s: Seq<GroupView>,
    threads: Seq<ThreadSample>,
    n: int,
    prev: Map<u64, u64>,
    timed: bool,
) -> bool {
    &&& names_differ(s)
    &&& forall|i: int|
        0 <= i < s.len() ==> {
            &&& group_size(threads, n, Some((#[trigger] s[i]).name)) > 0
            &&& s[i] == group_of(threads, n, s[i].name, prev, timed)
        }
    &&& forall|l: Seq<char>|
        #[trigger] group_size(threads, n, Some(l)) > 0 ==> exists|i: int|
            0 <= i < s.len() && (#[trigger] s[i]).name == l
}

/// Groups stand in the order in which they are shown.
pub open spec fn in_order(s: Seq<GroupView>) -> bool {
    forall|i: int, j: int|
        0 <= i < j < s.len() ==> group_before(#[trigger] s[i], #[trigger] s[j])
}

proof fn size_within(threads: Seq<ThreadSample>, n: int, label: Option<Seq<char>>)
    requires
        0 <= n <= threads.len(),
    ensures
        group_size(threads, n, label) <= n,
    decreases n,
{
    if n > 0 {
        size_within(threads, n - 1, label);
    }
}

fn add_up(a: u64, b: u64) -> (r: u64)
    ensures
        r == counted((a + b) as nat),
{
    if a > u64::MAX - b {
        u64::MAX
    } else {
        a + b
    }
}

/// Count a thread in its group.
fn count_thread(
    groups: &mut Vec<ThreadGroup>,
    name: &str,
    spent: u64,
    Ghost(threads): Ghost<Seq<ThreadSample>>,
    Ghost(n): Ghost<int>,
    Ghost(prev): Ghost<Map<u64, u64>>,
    Ghost(timed): Ghost<bool>,
)
    requires
        0 <= n < threads.len() <= u32::MAX,
        threads[n].name@ == name@,
        name@.len() > 0,
        spent == spent_by(threads[n], prev, timed),
        groups_are(group_views(old(groups)@), threads, n, prev, timed),
    ensures
        groups_are(group_views(final(groups)@), threads, n + 1, prev, timed),
{
    let label = pretty_thread_name(name);
    let ghost l = label@;
    let ghost s = group_views(groups@);
    proof {
        size_within(threads, n, Some(l));
    }
    let mut i: usize = 0;
    while i < groups.len() && !same_text(groups[i].name.as_str(), label.as_str())
        invariant
            i <= groups@.len(),
            *groups == *old(groups),
            s == group_views(groups@),
            l == label@,
            forall|j: int| 0 <= j < i ==> (#[trigger] s[j]).name != l,
        decreases groups@.len() - i,
    {
        assert(s[i as int].name == groups@[i as int].name@);
        i += 1;
    }
    if i < groups.len() {
        let g = groups.remove(i);
        assert(g@ == s[i as int]);
        let next = ThreadGroup {
            name: g.name,
            count: g.count + 1,
            spent: add_up(g.spent, spent),
        };
        groups.insert(i, next);
        assert(group_views(groups@) =~= s.update(i as int, next@));
    } else {
        let next = ThreadGroup { name: label, count: 1, spent };
        groups.push(next);
        assert(group_views(groups@) =~= s.push(next@));
    }
    proof {
        let s1 = group_views(groups@);
        assert forall|k: int| 0 <= k < s1.len() implies {
            &&& group_size(threads, n + 1, Some((#[trigger] s1[k]).name)) > 0
            &&& s1[k] == group_of(threads, n + 1, s1[k].name, prev, timed)
        } by {
            if k < s.len() {
                assert(s[k].name == s1[k].name);
                assert(s[k] == group_of(threads, n, s[k].name, prev, timed));
                size_within(threads, n, Some(s[k].name));
                if k != i {
                    assert(s[k].name != l) by {
                        if i < s.len() {
                            if k < i {
                            } else {
                                assert(s[i as int].name != s[k].name);
                            }
                        }
                    }
                }
            } else {
                assert(group_size(threads, n, Some(l)) == 0) by {
                    if group_size(threads, n, Some(l)) > 0 {
                        let j = choose|j: int| 0 <= j < s.len() && (#[trigger] s[j]).name == l;
                        assert(s[j].name != l);
                    }
                }
                nothing_spent(threads, n, l, prev, timed);
            }
        }
        assert forall|q: Seq<char>|
            #[trigger] group_size(threads, n + 1, Some(q)) > 0 implies exists|k: int|
            0 <= k < s1.len() && (#[trigger] s1[k]).name == q by {
            if q == l {
                assert(s1[i as int].name == l);
            } else {
                assert(group_size(threads, n, Some(q)) > 0);
                let k = choose|k: int| 0 <= k < s.len() && (#[trigger] s[k]).name == q;
                assert(s1[k].name == q);
            }
        }
        assert(names_differ(s1)) by {
            assert forall|a: int, b: int| 0 <= a < b < s1.len() implies (#[trigger] s1[a]).name
                != (#[trigger] s1[b]).name by {
                if b < s.len() {
                    assert(s[a].name != s[b].name);
                    assert(s1[a].name == s[a].name);
                    assert(s1[b].name == s[b].name);
                } else {
                    assert(s[a].name != l);
                }
            }
        }
    }
}

/// A group without threads has used nothing.
proof fn nothing_spent(
    threads: Seq<ThreadSample>,
    n: int,
    l: Seq<char>,
    prev: Map<u64, u64>,
    timed: bool,
)
    requires
        group_size(threads, n, Some(l)) == 0,
    ensures
        group_spent(threads, n, Some(l), prev, timed) == 0,
    decreases n,
{
    if n > 0 {
        nothing_spent(threads, n - 1, l, prev, timed);
    }
}

/// A thread that is not counted leaves the groups as they are.
proof fn nameless_thread(
    s: Seq<GroupView>,
    threads: Seq<ThreadSample>,
    n: int,
    prev: Map<u64, u64>,
    timed: bool,
)
    requires
        0 <= n < threads.len(),
        threads[n].name@.len() == 0,
        groups_are(s, threads, n, prev, timed),
    ensures
        groups_are(s, threads, n + 1, prev, timed),
{
    assert forall|i: int| 0 <= i < s.len() implies {
        &&& group_size(threads, n + 1, Some((#[trigger] s[i]).name)) > 0
        &&& s[i] == group_of(threads, n + 1, s[i].name, prev, timed)
    } by {
        assert(s[i] == group_of(threads, n, s[i].name, prev, timed));
    }
    assert forall|q: Seq<char>|
        #[trigger] group_size(threads, n + 1, Some(q)) > 0 implies exists|k: int|
        0 <= k < s.len() && (#[trigger] s[k]).name == q by {
        assert(group_size(threads, n, Some(q)) > 0);
    }
}

/// Of two groups with different names one is shown before the other, and the order is
/// transitive.
proof fn order_of_groups(a: GroupView, b: GroupView, c: GroupView)
    ensures
        a.name != b.name ==> group_before(a, b) || group_before(b, a),
        group_before(a, b) && group_before(b, c) ==> group_before(a, c),
{
    text_before_is_total(a.name, b.name);
    if text_before(a.name, b.name) && text_before(b.name, c.name) {
        text_before_is_transitive(a.name, b.name, c.name);
    }
}

fn shows_before(a: &ThreadGroup, b: &ThreadGroup) -> (r: bool)
    ensures
        r == group_before(a@, b@),
{
    if a.spent != b.spent {
        a.spent > b.spent
    } else if a.count != b.count {
        a.count > b.count
    } else {
        comes_before(a.name.as_str(), b.name.as_str())
    }
}

/// Put a group among others in order.
fn place_group(out: &mut Vec<ThreadGroup>, g: ThreadGroup)
    requires
        in_order(group_views(old(out)@)),
        forall|i: int| 0 <= i < old(out)@.len() ==> (#[trigger] old(out)@[i])@.name != g@.name,
    ensures
        in_order(group_views(final(out)@)),
        exists|p: int|
            0 <= p <= old(out)@.len() && group_views(final(out)@) == #[trigger] group_views(
                old(out)@,
            ).insert(p, g@),
{
    let ghost s = group_views(out@);
    let ghost v = g@;
    let mut p: usize = 0;
    while p < out.len() && !shows_before(&g, &out[p])
        invariant
            p <= out@.len(),
            *out == *old(out),
            s == group_views(out@),
            v == g@,
            forall|i: int| 0 <= i < out@.len() ==> (#[trigger] out@[i])@.name != v.name,
            forall|k: int| 0 <= k < p ==> group_before(#[trigger] s[k], v),
        decreases out@.len() - p,
    {
        proof {
            assert(out@[p as int]@ == s[p as int]);
            order_of_groups(s[p as int], v, v);
        }
        p += 1;
    }
    out.insert(p, g);
    proof {
        let r = group_views(out@);
        assert(r =~= s.insert(p as int, v));
        assert forall|i: int, j: int| 0 <= i < j < r.len() implies group_before(
            #[trigger] r[i],
            #[trigger] r[j],
        ) by {
            if j < p {
                assert(r[i] == s[i] && r[j] == s[j]);
            } else if j == p {
                assert(r[i] == s[i]);
            } else if i > p {
                assert(r[i] == s[i - 1] && r[j] == s[j - 1]);
            } else if i == p {
                assert(r[j] == s[j - 1]);
                if j - 1 > p {
                    assert(group_before(s[p as int], s[j - 1]));
                    order_of_groups(v, s[p as int], s[j - 1]);
                }
            } else {
                assert(r[i] == s[i] && r[j] == s[j - 1]);
            }
        }
    }
}

/// The groups in the order in which they are shown.
fn sort_groups(groups: Vec<ThreadGroup>) -> (out: Vec<ThreadGroup>)
    requires
        names_differ(group_views(groups@)),
    ensures
        in_order(group_views(out@)),
        names_differ(group_views(out@)),
        forall|g: GroupView|
            group_views(out@).contains(g) <==> #[trigger] group_views(groups@).contains(g),
{
    let ghost all = group_views(groups@);
    let mut out: Vec<ThreadGroup> = Vec::new();
    let ghost given = groups@;
    for g in it: groups
        invariant
            it.seq() == given,
            all == group_views(given),
            names_differ(all),
            in_order(group_views(out@)),
            names_differ(group_views(out@)),
            forall|x: GroupView|
                group_views(out@).contains(x) <==> #[trigger] all.subrange(
                    0,
                    it.index() as int,
                ).contains(x),
    {
        let ghost n = it.index() as int;
        let ghost before = group_views(out@);
        let ghost v = g@;
        proof {
            assert(all[n] == v);
            assert forall|i: int| 0 <= i < out@.len() implies (#[trigger] out@[i])@.name
                != v.name by {
                assert(before[i] == out@[i]@);
                assert(before.contains(before[i]));
                assert(all.subrange(0, n).contains(before[i]));
                let k = choose|k: int|
                    0 <= k < n && #[trigger] all.subrange(0, n)[k] == before[i];
                assert(all[k] == before[i]);
                assert(all[k].name != all[n].name);
            }
        }
        let ghost was = out@;
        place_group(&mut out, g);
        proof {
            let r = group_views(out@);
            let p = choose|p: int|
                0 <= p <= before.len() && r == #[trigger] before.insert(p, v);
            assert(all.subrange(0, n + 1) =~= all.subrange(0, n).push(v));
            assert forall|x: GroupView| r.contains(x) <==> #[trigger] all.subrange(
                0,
                n + 1,
            ).contains(x) by {
                placed_one(before, p, v, x);
                pushed_one(all.subrange(0, n), v, x);
                assert(before.contains(x) <==> all.subrange(0, n).contains(x));
            }
            assert(names_differ(r)) by {
                assert forall|a: int, b: int| 0 <= a < b < r.len() implies (#[trigger] r[a]).name
                    != (#[trigger] r[b]).name by {
                    let a0 = if a < p {
                        a
                    } else {
                        a - 1
                    };
                    let b0 = if b < p {
                        b
                    } else {
                        b - 1
                    };
                    if a == p {
                        assert(r[b] == before[b0]);
                        assert(was[b0]@ == before[b0]);
                    } else if b == p {
                        assert(r[a] == before[a0]);
                        assert(was[a0]@ == before[a0]);
                    } else {
                        assert(r[a] == before[a0] && r[b] == before[b0]);
                    }
                }
            }
        }
    }
    assert(all.subrange(0, all.len() as int) =~= all);
    proof {
        assert forall|g: GroupView|
            group_views(out@).contains(g) <==> #[trigger] all.contains(g) by {
            assert(all.subrange(0, all.len() as int).contains(g) <==> all.contains(g));
        }
    }
    out
}

proof fn placed_one(s: Seq<GroupView>, p: int, v: GroupView, x: GroupView)
    requires
        0 <= p <= s.len(),
    ensures
        s.insert(p, v).contains(x) <==> s.contains(x) || x == v,
{
    let r = s.insert(p, v);
    if r.contains(x) && x != v {
        let k = choose|k: int| 0 <= k < r.len() && r[k] == x;
        let k0 = if k < p {
            k
        } else {
            k - 1
        };
        assert(s[k0] == x);
    }
    if s.contains(x) {
        let k = choose|k: int| 0 <= k < s.len() && s[k] == x;
        let k1 = if k < p {
            k
        } else {
            k + 1
        };
        assert(r[k1] == x);
    }
    if x == v {
        assert(r[p] == x);
    }
}

proof fn pushed_one(s: Seq<GroupView>, v: GroupView, x: GroupView)
    ensures
        s.push(v).contains(x) <==> s.contains(x) || x == v,
{
    let r = s.push(v);
    if r.contains(x) && x != v {
        let k = choose|k: int| 0 <= k < r.len() && r[k] == x;
        assert(s[k] == x);
    }
    if s.contains(x) {
        let k = choose|k: int| 0 <= k < s.len() && s[k] == x;
        assert(r[k] == x);
    }
    if x == v {
        assert(r[s.len() as int] == x);
    }
}

/// The threads in groups, and what each has used, to be compared with the next sample.
/// `prev_cpu` is that of the last sample, and `timed` says that some time has passed since.
pub fn thread_groups_from_counters(
    threads: &Vec<ThreadSample>,
    prev_cpu: &HashMap<u64, u64>,
    timed: bool,
) -> (r: (ThreadTotals, HashMap<u64, u64>))
    requires
        threads@.len() <= u32::MAX,
    ensures
        r.1@ == counters(threads@, threads@.len() as int),
        ({
            let n = threads@.len() as int;
            let size = group_size(threads@, n, None);
            &&& groups_are(group_views(r.0.groups@), threads@, n, prev_cpu@, timed)
            &&& in_order(group_views(r.0.groups@))
            &&& r.0.threads == if size > 0 {
                Some(size as u32)
            } else {
                None
            }
            &&& r.0.ready == any_known(threads@, n, prev_cpu@, timed)
            &&& r.0.spent == counted(group_spent(threads@, n, None, prev_cpu@, timed))
        }),
{
    let mut groups: Vec<ThreadGroup> = Vec::new();
    let mut new_cpu: HashMap<u64, u64> = HashMap::new();
    let mut any: bool = false;
    let mut spent_in_all: u64 = 0;
    let mut named: u32 = 0;
    let ghost prev = prev_cpu@;
    let mut i: usize = 0;
    while i < threads.len()
        invariant
            i <= threads@.len() <= u32::MAX,
            prev == prev_cpu@,
            new_cpu@ == counters(threads@, i as int),
            groups_are(group_views(groups@), threads@, i as int, prev, timed),
            any == any_known(threads@, i as int, prev, timed),
            spent_in_all == counted(group_spent(threads@, i as int, None, prev, timed)),
            named == group_size(threads@, i as int, None),
        decreases threads@.len() - i,
    {
        let t: &ThreadSample = &threads[i];
        let ghost known = t.name@.len() > 0 && timed && prev.dom().contains(t.tid);
        proof {
            size_within(threads@, i as int, None);
            assert(any_known(threads@, i + 1, prev, timed) == (any_known(
                threads@,
                i as int,
                prev,
                timed,
            ) || known)) by {
                if known {
                    assert(threads@[i as int].name@.len() > 0);
                }
            }
        }
        if t.name.as_str().is_empty() {
            proof {
                assert(t.name@.len() == 0);
                nameless_thread(group_views(groups@), threads@, i as int, prev, timed);
            }
        } else {
            new_cpu.insert(t.tid, t.counter);
            let mut spent: u64 = 0;
            if timed {
                if let Some(p) = prev_cpu.get(&t.tid) {
                    any = true;
                    if t.counter > *p {
                        spent = t.counter - *p;
                    }
                }
            }
            count_thread(
                &mut groups,
                t.name.as_str(),
                spent,
                Ghost(threads@),
                Ghost(i as int),
                Ghost(prev),
                Ghost(timed),
            );
            spent_in_all = add_up(spent_in_all, spent);
            named += 1;
        }
        i += 1;
    }
    let ghost unsorted = group_views(groups@);
    let groups = sort_groups(groups);
    proof {
        let s = group_views(groups@);
        let n = threads@.len() as int;
        assert forall|k: int| 0 <= k < s.len() implies {
            &&& group_size(threads@, n, Some((#[trigger] s[k]).name)) > 0
            &&& s[k] == group_of(threads@, n, s[k].name, prev, timed)
        } by {
            assert(s.contains(s[k]));
            assert(unsorted.contains(s[k]));
            let j = choose|j: int| 0 <= j < unsorted.len() && #[trigger] unsorted[j] == s[k];
        }
        assert forall|q: Seq<char>|
            #[trigger] group_size(threads@, n, Some(q)) > 0 implies exists|k: int|
            0 <= k < s.len() && (#[trigger] s[k]).name == q by {
            let j = choose|j: int| 0 <= j < unsorted.len() && (#[trigger] unsorted[j]).name == q;
            assert(unsorted.contains(unsorted[j]));
            assert(s.contains(unsorted[j]));
            let k = choose|k: int| 0 <= k < s.len() && #[trigger] s[k] == unsorted[j];
            assert(s[k].name == q);
        }
    }
    let threads_shown: Option<u32> = if named > 0 {
        Some(named)
    } else {
        None
    };
    (ThreadTotals { groups, threads: threads_shown, ready: any, spent: spent_in_all }, new_cpu)
}

/// A thread has used what its counter grew by since the last sample; one that was not there
/// has used nothing that can be told.
pub proof fn threads_use_what_their_counters_grew_by(t: ThreadSample, prev: Map<u64, u64>)
    ensures
        prev.contains_key(t.tid) && t.counter >= prev[t.tid] ==> prev[t.tid] + spent_by(
            t,
            prev,
            true,
        ) == t.counter,
        !prev.contains_key(t.tid) ==> spent_by(t, prev, true) == 0,
        prev.contains_key(t.tid) && t.counter <= prev[t.tid] ==> spent_by(t, prev, true) == 0,
        spent_by(t, prev, false) == 0,
{
}

/// A thread is counted in the group of its label and in the whole, and in no other group; one
/// without a name is counted nowhere.
pub proof fn threads_are_counted_by_their_label(t: ThreadSample, l: Seq<char>)
    ensures
        t.name@.len() == 0 ==> !counts_in(t, None) && !counts_in(t, Some(l)),
        t.name@.len() > 0 ==> counts_in(t, None) && (counts_in(t, Some(l)) <==> thread_label(t.name@)
            == l),
{
}

/// Each thread adds one to its group, and the time that it used.
pub proof fn each_thread_is_counted_once(
    threads: Seq<ThreadSample>,
    n: int,
    label: Option<Seq<char>>,
    prev: Map<u64, u64>,
    timed: bool,
)
    requires
        0 <= n < threads.len(),
    ensures
        group_size(threads, 0, label) == 0,
        group_spent(threads, 0, label, prev, timed) == 0,
        counts_in(threads[n], label) ==> group_size(threads, n + 1, label) == group_size(
            threads,
            n,
            label,
        ) + 1 && group_spent(threads, n + 1, label, prev, timed) == group_spent(
            threads,
            n,
            label,
            prev,
            timed,
        ) + spent_by(threads[n], prev, timed),
        !counts_in(threads[n], label) ==> group_size(threads, n + 1, label) == group_size(
            threads,
            n,
            label,
        ) && group_spent(threads, n + 1, label, prev, timed) == group_spent(
            threads,
            n,
            label,
            prev,
            timed,
        ),
{
}

/// A group is shown under its label with its threads and their time.
pub proof fn groups_are_shown_as_they_are(
    threads: Seq<ThreadSample>,
    n: int,
    label: Seq<char>,
    prev: Map<u64, u64>,
    timed: bool,
)
    requires
        0 <= n <= threads.len() <= u32::MAX,
        group_spent(threads, n, Some(label), prev, timed) <= u64::MAX,
    ensures
        ({
            let g = group_of(threads, n, label, prev, timed);
            &&& g.name == label
            &&& g.count == group_size(threads, n, Some(label))
            &&& g.spent == group_spent(threads, n, Some(label), prev, timed)
        }),
        counted((u64::MAX + 1) as nat) == u64::MAX,
{
    size_within(threads, n, Some(label));
}

/// The busier group is shown first, then the larger one, then by name.
pub proof fn busy_groups_are_shown_first(a: GroupView, b: GroupView)
    ensures
        a.spent > b.spent ==> group_before(a, b) && !group_before(b, a),
        a.spent == b.spent && a.count > b.count ==> group_before(a, b) && !group_before(b, a),
        a.spent == b.spent && a.count == b.count ==> (group_before(a, b) <==> text_before(
            a.name,
            b.name,
        )),
{
}

/// What each named thread has used is kept under its number for the next sample.
pub proof fn counters_are_kept_by_thread(threads: Seq<ThreadSample>, n: int, tid: u64)
    requires
        0 <= n < threads.len(),
    ensures
        counters(threads, 0) == Map::<u64, u64>::empty(),
        threads[n].name@.len() > 0 ==> counters(threads, n + 1).contains_key(threads[n].tid)
            && counters(threads, n + 1)[threads[n].tid] == threads[n].counter,
        tid != threads[n].tid || threads[n].name@.len() == 0 ==> counters(
            threads,
            n + 1,
        ).contains_key(tid) == counters(threads, n).contains_key(tid) && counters(
            threads,
            n + 1,
        )[tid] == counters(threads, n)[tid],
{
}

/// Times can be told once a named thread was there at the last sample and time has passed.
pub proof fn times_can_be_told(
    threads: Seq<ThreadSample>,
    n: int,
    i: int,
    prev: Map<u64, u64>,
    timed: bool,
)
    requires
        0 <= i < n <= threads.len(),
    ensures
        timed && threads[i].name@.len() > 0 && prev.contains_key(threads[i].tid) ==> any_known(
            threads,
            n,
            prev,
            timed,
        ),
        !timed ==> !any_known(threads, n, prev, timed),
        prev == Map::<u64, u64>::empty() ==> !any_known(threads, n, prev, timed),
{
}

/// Groups are those of the threads: each label that a thread has is there once, with its
/// numbers, and in order.
pub proof fn groups_are_those_of_the_threads(
    s: Seq<GroupView>,
    threads: Seq<ThreadSample>,
    prev: Map<u64, u64>,
    timed: bool,
    i: int,
    j: int,
)
    requires
        groups_are(s, threads, threads.len() as int, prev, timed),
        in_order(s),
        0 <= i < j < s.len(),
    ensures
        s[i].name != s[j].name,
        group_before(s[i], s[j]),
        s[i] == group_of(threads, threads.len() as int, s[i].name, prev, timed),
        group_size(threads, threads.len() as int, Some(s[i].name)) > 0,
{
}

} // verus!

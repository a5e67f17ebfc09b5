//! Which worker a peer is assigned to.
use crate::error::{Error, Result};
use crate::text::{decimal, push_decimal};
use vstd::prelude::*;

verus! {

/// Name of the threads that run peers.
pub const NAME_IO: &'static str = "seedchamp-io";

/// Number of workers where none is configured: one per processor, four where their number
/// is not known.
pub fn default_peer_workers(parallelism: Option<usize>) -> (n: usize)
    ensures
        n == match parallelism {
            Some(p) => if p == 0 {
                1
            } else {
                p
            },
            None => 4,
        },
{
    match parallelism {
        Some(p) => if p == 0 {
            1
        } else {
            p
        },
        None => 4,
    }
}

/// Name of a worker's thread.
pub fn worker_name(n_workers: usize, i: usize) -> (s: String)
    ensures
        s@ == if n_workers == 1 {
            NAME_IO@
        } else {
            NAME_IO@ + "-"@ + decimal(i as nat)
        },
{
    let mut s = String::new();
    s.append(NAME_IO);
    if n_workers != 1 {
        s.append("-");
        push_decimal(&mut s, i as u64);
        assert(s@ =~= NAME_IO@ + "-"@ + decimal(i as nat));
    } else {
        assert(s@ =~= NAME_IO@);
    }
    s
}

/// Sum of the peers of all workers.
pub open spec fn total(counts: Seq<usize>) -> nat
    decreases counts.len(),
{
    if counts.len() == 0 {
        0
    } else {
        total(counts.drop_last()) + counts.last() as nat
    }
}

proof fn total_after_update(counts: Seq<usize>, i: int, n: usize)
    requires
        0 <= i < counts.len(),
    ensures
        total(counts.update(i, n)) == total(counts) - counts[i] + n,
    decreases counts.len(),
{
    let u = counts.update(i, n);
    if i == counts.len() - 1 {
        assert(u.drop_last() =~= counts.drop_last());
    } else {
        assert(u.drop_last() =~= counts.drop_last().update(i, n));
        total_after_update(counts.drop_last(), i, n);
    }
}

proof fn total_holds_each(counts: Seq<usize>, i: int)
    requires
        0 <= i < counts.len(),
    ensures
        counts[i] <= total(counts),
    decreases counts.len(),
{
    if i < counts.len() - 1 {
        total_holds_each(counts.drop_last(), i);
    }
}

/// How many peers each worker runs.
#[derive(Debug)]
pub struct PeerLoads {
    counts: Vec<usize>,
    active: usize,
    shut: bool,
}

impl PeerLoads {
    /// Peers of each worker.
    pub closed spec fn loads(&self) -> Seq<usize> {
        self.counts@
    }

    /// Peers of all workers.
    pub closed spec fn spec_active(&self) -> nat {
        self.active as nat
    }

    /// Whether the pool is shut down.
    pub closed spec fn is_shut(&self) -> bool {
        self.shut
    }

    /// There is a worker, and the peers add up.
    pub open spec fn wf(&self) -> bool {
        &&& self.loads().len() > 0
        &&& self.spec_active() == total(self.loads())
    }

    /// No peers yet. There is at least one worker.
    pub fn new(workers: usize) -> (p: PeerLoads)
        ensures
            p.wf(),
            p.loads() == Seq::new(
                if workers == 0 {
                    1
                } else {
                    workers as nat
                },
                |i: int| 0usize,
            ),
            !p.is_shut(),
    {
        let n: usize = if workers == 0 {
            1
        } else {
            workers
        };
        let counts: Vec<usize> = vec![0usize; n];
        proof {
            assert(counts@ =~= Seq::new(n as nat, |i: int| 0usize));
            nothing_adds_up_to_nothing(counts@);
        }
        PeerLoads { counts, active: 0, shut: false }
    }

    /// Number of workers.
    pub fn workers(&self) -> (n: usize)
        ensures
            n == self.loads().len(),
    {
        self.counts.len()
    }

    /// Peers of all workers.
    pub fn active_peers(&self) -> (n: usize)
        ensures
            n == self.spec_active(),
    {
        self.active
    }

    /// The worker with the fewest peers, the first of them.
    pub fn least_peers_worker(&self) -> (r: usize)
        requires
            self.wf(),
        ensures
            r < self.loads().len(),
            forall|j: int|
                0 <= j < self.loads().len() ==> self.loads()[r as int] <= #[trigger] self.loads()[j],
            forall|j: int| 0 <= j < r ==> self.loads()[r as int] < #[trigger] self.loads()[j],
    {
        let mut best: usize = 0;
        let mut i: usize = 1;
        while i < self.counts.len()
            invariant
                1 <= i <= self.counts@.len(),
                best < i,
                forall|j: int| 0 <= j < i ==> self.counts@[best as int] <= #[trigger] self.counts@[j],
                forall|j: int|
                    0 <= j < best ==> self.counts@[best as int] < #[trigger] self.counts@[j],
            decreases self.counts@.len() - i,
        {
            if self.counts[i] < self.counts[best] {
                best = i;
            }
            i += 1;
        }
        best
    }

    /// Assign a peer to the worker with the fewest.
    pub fn assign(&mut self) -> (r: Result<usize>)
        requires
            old(self).wf(),
            old(self).spec_active() < usize::MAX,
        ensures
            final(self).wf(),
            final(self).is_shut() == old(self).is_shut(),
            r matches Ok(i) ==> {
                &&& !old(self).is_shut()
                &&& i < old(self).loads().len()
                &&& forall|j: int|
                    0 <= j < old(self).loads().len() ==> old(self).loads()[i as int]
                        <= #[trigger] old(self).loads()[j]
                &&& forall|j: int|
                    0 <= j < i ==> old(self).loads()[i as int] < #[trigger] old(self).loads()[j]
                &&& final(self).loads() == old(self).loads().update(
                    i as int,
                    (old(self).loads()[i as int] + 1) as usize,
                )
                &&& final(self).spec_active() == old(self).spec_active() + 1
            },
            r matches Err(e) ==> old(self).is_shut() && e is Msg && e.text()
                == "peer pool shut down"@ && *final(self) == *old(self),
    {
        if self.shut {
            return Err(Error::msg("peer pool shut down"));
        }
        let i: usize = self.least_peers_worker();
        proof {
            total_holds_each(self.counts@, i as int);
            total_after_update(self.counts@, i as int, (self.counts@[i as int] + 1) as usize);
        }
        let n: usize = self.counts[i];
        self.counts.set(i, n + 1);
        self.active = self.active + 1;
        Ok(i)
    }

    /// A peer of a worker is gone.
    pub fn release(&mut self, i: usize)
        requires
            old(self).wf(),
            i < old(self).loads().len(),
            old(self).loads()[i as int] > 0,
        ensures
            final(self).wf(),
            final(self).is_shut() == old(self).is_shut(),
            final(self).loads() == old(self).loads().update(
                i as int,
                (old(self).loads()[i as int] - 1) as usize,
            ),
            final(self).spec_active() == old(self).spec_active() - 1,
    {
        proof {
            total_holds_each(self.counts@, i as int);
            total_after_update(self.counts@, i as int, (self.counts@[i as int] - 1) as usize);
        }
        let n: usize = self.counts[i];
        self.counts.set(i, n - 1);
        self.active = self.active - 1;
    }

    /// Take no more peers. False where that was so already.
    pub fn shutdown(&mut self) -> (first: bool)
        ensures
            first == !old(self).is_shut(),
            final(self).is_shut(),
            final(self).loads() == old(self).loads(),
            final(self).spec_active() == old(self).spec_active(),
    {
        let first: bool = !self.shut;
        self.shut = true;
        first
    }
}

proof fn nothing_adds_up_to_nothing(counts: Seq<usize>)
    requires
        forall|i: int| 0 <= i < counts.len() ==> counts[i] == 0,
    ensures
        total(counts) == 0,
    decreases counts.len(),
{
    if counts.len() > 0 {
        nothing_adds_up_to_nothing(counts.drop_last());
    }
}

/// The peers of two groups of workers are those of the one and those of the other.
pub proof fn peers_add_up(a: Seq<usize>, b: Seq<usize>, n: usize)
    ensures
        total(a + b) == total(a) + total(b),
        total(seq![n]) == n,
    decreases b.len(),
{
    assert(seq![n].drop_last() =~= Seq::<usize>::empty());
    reveal_with_fuel(total, 2);
    if b.len() == 0 {
        assert(a + b =~= a);
    } else {
        assert((a + b).drop_last() =~= a + b.drop_last());
        peers_add_up(a, b.drop_last(), n);
    }
}

} // verus!

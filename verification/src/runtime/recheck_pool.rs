//! Checking all pieces of a torrent against the disk.
use crate::bytes::copy_range;
use crate::runtime::hash_worker::RecheckPieceResult;
use vstd::prelude::*;

verus! {

/// What a recheck has found so far.
#[derive(Debug)]
pub struct RecheckTally {
    pub have: Vec<bool>,
    pub good: u32,
    pub bad: u32,
    pub missing: u32,
}

impl RecheckTally {
    /// Pieces that were checked.
    pub open spec fn checked(&self) -> int {
        self.good + self.bad + self.missing
    }

    /// Nothing checked yet.
    pub fn new(piece_count: u32) -> (t: RecheckTally)
        ensures
            t.have@ == Seq::new(piece_count as nat, |i: int| false),
            t.good == 0,
            t.bad == 0,
            t.missing == 0,
    {
        let have: Vec<bool> = vec![false; piece_count as usize];
        assert(have@ =~= Seq::new(piece_count as nat, |i: int| false));
        RecheckTally { have, good: 0, bad: 0, missing: 0 }
    }

    /// The tally with the result of one more piece.
    pub open spec fn counts(&self, r: RecheckPieceResult, after: &RecheckTally) -> bool {
        match r {
            RecheckPieceResult::Good { index } => {
                &&& after.good == self.good + 1
                &&& after.bad == self.bad
                &&& after.missing == self.missing
                &&& after.have@ == if index < self.have@.len() {
                    self.have@.update(index as int, true)
                } else {
                    self.have@
                }
            },
            RecheckPieceResult::Bad { .. } => {
                &&& after.good == self.good
                &&& after.bad == self.bad + 1
                &&& after.missing == self.missing
                &&& after.have@ == self.have@
            },
            RecheckPieceResult::Missing { .. } => {
                &&& after.good == self.good
                &&& after.bad == self.bad
                &&& after.missing == self.missing + 1
                &&& after.have@ == self.have@
            },
        }
    }

    /// A piece was checked.
    pub fn add(&mut self, r: RecheckPieceResult)
        requires
            old(self).checked() < u32::MAX,
        ensures
            final(self).checked() == old(self).checked() + 1,
            old(self).counts(r, final(self)),
    {
        match r {
            RecheckPieceResult::Good { index } => {
                if (index as usize) < self.have.len() {
                    self.have.set(index as usize, true);
                }
                self.good = self.good + 1;
            },
            RecheckPieceResult::Bad { .. } => {
                self.bad = self.bad + 1;
            },
            RecheckPieceResult::Missing { .. } => {
                self.missing = self.missing + 1;
            },
        }
    }
}

/// In whatever order the results come, every one is counted, and the pieces that are had in the
/// end are those that were found good.
pub proof fn a_recheck_has_the_good_pieces(
    tallies: Seq<RecheckTally>,
    results: Seq<RecheckPieceResult>,
    i: u32,
)
    requires
        tallies.len() == results.len() + 1,
        tallies[0].checked() == 0,
        forall|k: int| 0 <= k < tallies[0].have@.len() ==> !#[trigger] tallies[0].have@[k],
        forall|k: int|
            0 <= k < results.len() ==> (#[trigger] tallies[k]).counts(
                results[k],
                &tallies[k + 1],
            ),
        i < tallies[0].have@.len(),
    ensures
        tallies.last().checked() == results.len(),
        tallies.last().have@.len() == tallies[0].have@.len(),
        tallies.last().have@[i as int] == results.contains(RecheckPieceResult::Good { index: i }),
    decreases results.len(),
{
    let good = RecheckPieceResult::Good { index: i };
    if results.len() > 0 {
        let n = results.len() - 1;
        let before = tallies.drop_last();
        let earlier = results.drop_last();
        assert forall|k: int| 0 <= k < earlier.len() implies (#[trigger] before[k]).counts(
            earlier[k],
            &before[k + 1],
        ) by {
            assert(tallies[k].counts(results[k], &tallies[k + 1]));
        }
        a_recheck_has_the_good_pieces(before, earlier, i);
        assert(before.last() == tallies[n]);
        assert(tallies[n].counts(results[n], &tallies[n + 1]));
        if earlier.contains(good) {
            let k = choose|k: int| 0 <= k < earlier.len() && earlier[k] == good;
            assert(results[k] == good);
        }
        if results.contains(good) && results[n] != good {
            let k = choose|k: int| 0 <= k < results.len() && results[k] == good;
            assert(earlier[k] == good);
        }
        if results[n] == good {
            assert(results.contains(good));
        }
    }
}

/// The hash that piece `i` must have, from the torrent's row of hashes.
pub fn expected_hash(hashes: &[u8], i: u32) -> (r: Vec<u8>)
    requires
        20 * i + 20 <= hashes@.len(),
    ensures
        r@ == hashes@.subrange(20 * i as int, 20 * i + 20),
{
    let end: usize = hashes.len();
    assert(20 * i + 20 <= end);
    let at: usize = i as usize * 20;
    copy_range(hashes, at, at + 20)
}

/// A piece is counted where it belongs: a good one, a bad one, and one that is not there.
pub proof fn results_are_counted_apart(
    before: RecheckTally,
    r: RecheckPieceResult,
    after: RecheckTally,
)
    requires
        before.counts(r, &after),
    ensures
        after.checked() == before.checked() + 1,
        after.good == before.good + 1 <==> r is Good,
        after.bad == before.bad + 1 <==> r is Bad,
        after.missing == before.missing + 1 <==> r is Missing,
        !(r is Good) ==> after.have@ == before.have@,
        after.checked() == after.good + after.bad + after.missing,
{
}

} // verus!

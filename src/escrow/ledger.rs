use vstd::prelude::*;
use vstd::arithmetic::div_mod::{lemma_div_is_ordered, lemma_multiply_divide_lt};
use crate::address::Address;
use crate::escrow::errors::ErrorCode;
use crate::escrow::state::{Beneficiary, Locker, Ouroboros, BASIS_POINTS, votes_spec};

verus! {

/// The protocol's state as values: the root record, the beneficiaries and the lockers,
/// each addressed by its position.
pub ghost struct EscrowView {
    pub ouroboros: Ouroboros,
    pub beneficiaries: Seq<Beneficiary>,
    pub lockers: Seq<Locker>,
}

/// Votes that locker `l` lends to beneficiary `i`.
pub open spec fn lent(l: Locker, i: int) -> int {
    match l.beneficiary {
        Some(j) => if j as int == i { l.votes as int } else { 0 },
        None => 0,
    }
}

/// Votes that the lockers `ls` lend to beneficiary `i`.
pub open spec fn backing(ls: Seq<Locker>, i: int) -> int
    decreases ls.len(),
{
    if ls.len() == 0 {
        0
    } else {
        backing(ls.drop_last(), i) + lent(ls.last(), i)
    }
}

/// Sum of the votes of the beneficiaries `bs`.
pub open spec fn tally(bs: Seq<Beneficiary>) -> int
    decreases bs.len(),
{
    if bs.len() == 0 {
        0
    } else {
        tally(bs.drop_last()) + bs.last().votes
    }
}

/// The locker votes for nobody or for one of the first `n` beneficiaries.
pub open spec fn points_below(l: Locker, n: int) -> bool {
    match l.beneficiary {
        Some(j) => j < n,
        None => true,
    }
}

/// A beneficiary's share of an epoch's emission in basis points: its votes over the
/// votes frozen for the epoch. An epoch that froze no votes gives no share.
pub open spec fn weight_spec(votes: int, frozen_votes: int) -> int {
    if frozen_votes == 0 {
        0
    } else {
        BASIS_POINTS as int * votes / frozen_votes
    }
}

/// Tokens minted to a beneficiary of `weight`: its share of the epoch's expansion of the
/// supply that is not counted as votes.
pub open spec fn incentive_spec(supply: int, total_votes: int, expansion_factor: int, weight: int) -> int {
    (supply - total_votes) * expansion_factor / BASIS_POINTS as int * weight / BASIS_POINTS as int
}

impl EscrowView {
    /// Every locker points at an existing beneficiary, every beneficiary holds exactly the
    /// votes lent to it, and the root's live total is the sum over all beneficiaries.
    pub open spec fn wf(&self) -> bool {
        &&& self.ouroboros.wf()
        &&& forall|k: int| 0 <= k < self.lockers.len()
            ==> #[trigger] points_below(self.lockers[k], self.beneficiaries.len() as int)
        &&& forall|i: int| 0 <= i < self.beneficiaries.len()
            ==> #[trigger] self.beneficiaries[i].votes == backing(self.lockers, i)
        &&& self.ouroboros.total_votes == tally(self.beneficiaries)
    }

    /// Beneficiary `i` has been settled for the current epoch.
    pub open spec fn settled(&self, i: int) -> bool {
        self.beneficiaries[i].last_update >= self.ouroboros.last_period
    }

    /// A vote move of locker `k` to beneficiary `to` is refused because the source or the
    /// destination still awaits settlement.
    pub open spec fn vote_blocked(&self, k: int, to: int) -> bool {
        ||| !self.settled(to)
        ||| match self.lockers[k].beneficiary {
            Some(from) => !self.settled(from as int),
            None => false,
        }
    }

    /// The state after locker `k` moves its votes to beneficiary `to`: they leave its
    /// current beneficiary, if any, and join `to`; a first vote adds them to the total.
    pub open spec fn with_vote(&self, k: int, to: int) -> EscrowView {
        let l = self.lockers[k];
        let bs = self.beneficiaries;
        let left = match l.beneficiary {
            Some(from) => bs.update(from as int, Beneficiary { votes: (bs[from as int].votes - l.votes) as u64, ..bs[from as int] }),
            None => bs,
        };
        let total = match l.beneficiary {
            Some(_) => self.ouroboros.total_votes,
            None => (self.ouroboros.total_votes + l.votes) as u64,
        };
        EscrowView {
            ouroboros: Ouroboros { total_votes: total, ..self.ouroboros },
            beneficiaries: left.update(to, Beneficiary { votes: (left[to].votes + l.votes) as u64, ..left[to] }),
            lockers: self.lockers.update(k, Locker { beneficiary: Some(to as usize), ..l }),
        }
    }

    /// Outcome of a claim of beneficiary `i` at `now` with the emitted token at `supply`:
    /// the new state and the amount to mint, or `None` when the weight leaves the record's
    /// sixteen bits (votes gained after the freeze) or the amount leaves the token's range.
    pub open spec fn claim_outcome(&self, i: int, now: i64, supply: int) -> Option<(EscrowView, int)> {
        let o = self.ouroboros.rolled(now);
        let b = self.beneficiaries[i];
        if b.last_update < o.last_period {
            let w = weight_spec(b.votes as int, o.last_period_votes as int);
            let amount = incentive_spec(supply, o.total_votes as int, o.expansion_factor as int, w);
            if w > u16::MAX || supply < o.total_votes || amount > u64::MAX {
                None
            } else {
                Some((
                    EscrowView {
                        ouroboros: o,
                        beneficiaries: self.beneficiaries.update(i, Beneficiary { weight: w as u16, last_update: o.last_period, ..b }),
                        lockers: self.lockers,
                    },
                    amount,
                ))
            }
        } else {
            Some((EscrowView { ouroboros: o, ..*self }, 0))
        }
    }
}

pub proof fn lemma_backing_nonneg(ls: Seq<Locker>, i: int)
    ensures
        backing(ls, i) >= 0,
    decreases ls.len(),
{
    if ls.len() > 0 {
        lemma_backing_nonneg(ls.drop_last(), i);
    }
}

pub proof fn lemma_backing_push(ls: Seq<Locker>, l: Locker, i: int)
    ensures
        backing(ls.push(l), i) == backing(ls, i) + lent(l, i),
{
    assert(ls.push(l).drop_last() =~= ls);
}

pub proof fn lemma_backing_update(ls: Seq<Locker>, k: int, l: Locker, i: int)
    requires
        0 <= k < ls.len(),
    ensures
        backing(ls.update(k, l), i) == backing(ls, i) - lent(ls[k], i) + lent(l, i),
    decreases ls.len(),
{
    let u = ls.update(k, l);
    if k == ls.len() - 1 {
        assert(u.drop_last() =~= ls.drop_last());
    } else {
        assert(u.drop_last() =~= ls.drop_last().update(k, l));
        lemma_backing_update(ls.drop_last(), k, l, i);
    }
}

/// Nobody lends votes to a beneficiary that no locker points at.
pub proof fn lemma_backing_unused(ls: Seq<Locker>, i: int)
    requires
        forall|k: int| 0 <= k < ls.len() ==> #[trigger] points_below(ls[k], i),
    ensures
        backing(ls, i) == 0,
    decreases ls.len(),
{
    if ls.len() > 0 {
        assert(points_below(ls[ls.len() - 1], i));
        lemma_backing_unused(ls.drop_last(), i);
    }
}

/// A locker pointed at `i` is part of what `i` is lent.
pub proof fn lemma_backing_covers(ls: Seq<Locker>, k: int, i: int)
    requires
        0 <= k < ls.len(),
    ensures
        backing(ls, i) >= lent(ls[k], i),
{
    let cleared = Locker { beneficiary: None, ..ls[k] };
    lemma_backing_update(ls, k, cleared, i);
    lemma_backing_nonneg(ls.update(k, cleared), i);
}

pub proof fn lemma_tally_nonneg(bs: Seq<Beneficiary>)
    ensures
        tally(bs) >= 0,
    decreases bs.len(),
{
    if bs.len() > 0 {
        lemma_tally_nonneg(bs.drop_last());
    }
}

pub proof fn lemma_tally_push(bs: Seq<Beneficiary>, b: Beneficiary)
    ensures
        tally(bs.push(b)) == tally(bs) + b.votes,
{
    assert(bs.push(b).drop_last() =~= bs);
}

pub proof fn lemma_tally_update(bs: Seq<Beneficiary>, k: int, b: Beneficiary)
    requires
        0 <= k < bs.len(),
    ensures
        tally(bs.update(k, b)) == tally(bs) - bs[k].votes + b.votes,
    decreases bs.len(),
{
    let u = bs.update(k, b);
    if k == bs.len() - 1 {
        assert(u.drop_last() =~= bs.drop_last());
    } else {
        assert(u.drop_last() =~= bs.drop_last().update(k, b));
        lemma_tally_update(bs.drop_last(), k, b);
    }
}

/// The votes of two distinct beneficiaries are both part of the total.
pub proof fn lemma_tally_covers_two(bs: Seq<Beneficiary>, i: int, j: int)
    requires
        0 <= i < bs.len(),
        0 <= j < bs.len(),
    ensures
        tally(bs) >= bs[i].votes + (if i == j { 0 } else { bs[j].votes as int }),
{
    let cleared_i = bs.update(i, Beneficiary { votes: 0, ..bs[i] });
    lemma_tally_update(bs, i, Beneficiary { votes: 0, ..bs[i] });
    if i == j {
        lemma_tally_nonneg(cleared_i);
    } else {
        let cleared = cleared_i.update(j, Beneficiary { votes: 0, ..cleared_i[j] });
        lemma_tally_update(cleared_i, j, Beneficiary { votes: 0, ..cleared_i[j] });
        lemma_tally_nonneg(cleared);
    }
}

/// Outside of an instruction the beneficiaries' votes add up to the protocol's live total.
pub proof fn lemma_vote_conservation(e: EscrowView)
    requires
        e.wf(),
    ensures
        tally(e.beneficiaries) == e.ouroboros.total_votes,
        forall|i: int| 0 <= i < e.beneficiaries.len() ==> #[trigger] e.beneficiaries[i].votes == backing(e.lockers, i),
{
}

/// The protocol's whole state: the root record, its beneficiaries and its lockers.
pub struct Escrow {
    ouroboros: Ouroboros,
    beneficiaries: Vec<Beneficiary>,
    lockers: Vec<Locker>,
}

impl View for Escrow {
    type V = EscrowView;

    closed spec fn view(&self) -> EscrowView {
        EscrowView { ouroboros: self.ouroboros, beneficiaries: self.beneficiaries@, lockers: self.lockers@ }
    }
}


impl Escrow {
    /// A new protocol whose first epoch starts at `start_date`, with no beneficiary,
    /// locker or vote yet.
    pub fn initialize_ouroboros(
        id: u64,
        authority: Address,
        mint: Address,
        period: u64,
        start_date: i64,
        expansion_factor: u64,
        time_multiplier: u64,
    ) -> (r: Escrow)
        requires
            0 < period <= i64::MAX,
        ensures
            r@.wf(),
            r@.ouroboros == (Ouroboros {
                id,
                authority,
                mint,
                period,
                last_period: start_date,
                last_period_votes: 0,
                total_votes: 0,
                expansion_factor,
                time_multiplier,
            }),
            r@.beneficiaries.len() == 0,
            r@.lockers.len() == 0,
    {
        let ouroboros = Ouroboros::new(id, authority, mint, period, start_date, expansion_factor, time_multiplier);
        let r = Escrow { ouroboros, beneficiaries: Vec::new(), lockers: Vec::new() };
        assert(r@.beneficiaries =~= Seq::<Beneficiary>::empty());
        r
    }

    /// The root record.
    pub fn ouroboros(&self) -> (r: Ouroboros)
        ensures
            r == self@.ouroboros,
    {
        self.ouroboros
    }

    pub fn beneficiary_count(&self) -> (r: usize)
        ensures
            r == self@.beneficiaries.len(),
    {
        self.beneficiaries.len()
    }

    pub fn locker_count(&self) -> (r: usize)
        ensures
            r == self@.lockers.len(),
    {
        self.lockers.len()
    }

    pub fn beneficiary(&self, i: usize) -> (r: Beneficiary)
        requires
            i < self@.beneficiaries.len(),
        ensures
            r == self@.beneficiaries[i as int],
    {
        self.beneficiaries[i]
    }

    pub fn locker(&self, k: usize) -> (r: Locker)
        requires
            k < self@.lockers.len(),
        ensures
            r == self@.lockers[k as int],
    {
        self.lockers[k]
    }

    /// Registers a beneficiary, settled for the current epoch and with no votes, and
    /// returns its position.
    pub fn create_beneficiary(&mut self, account: Address) -> (r: usize)
        requires
            old(self)@.wf(),
        ensures
            final(self)@.wf(),
            r == old(self)@.beneficiaries.len(),
            final(self)@ == (EscrowView {
                beneficiaries: old(self)@.beneficiaries.push(Beneficiary {
                    account,
                    votes: 0,
                    weight: 0,
                    last_update: old(self)@.ouroboros.last_period,
                }),
                ..old(self)@
            }),
    {
        let r = self.beneficiaries.len();
        let b = Beneficiary { account, votes: 0, weight: 0, last_update: self.ouroboros.last_period };
        let ghost before = self@;
        self.beneficiaries.push(b);
        proof {
            lemma_tally_push(before.beneficiaries, b);
            assert forall|k: int| 0 <= k < self@.lockers.len() implies #[trigger] points_below(self@.lockers[k], self@.beneficiaries.len() as int) by {
                assert(points_below(before.lockers[k], before.beneficiaries.len() as int));
            }
            assert forall|k: int| 0 <= k < before.lockers.len() implies #[trigger] points_below(before.lockers[k], r as int) by {
                assert(points_below(before.lockers[k], before.beneficiaries.len() as int));
            }
            lemma_backing_unused(before.lockers, r as int);
            assert forall|i: int| 0 <= i < self@.beneficiaries.len() implies #[trigger] self@.beneficiaries[i].votes == backing(self@.lockers, i) by {
                if i < r {
                    assert(before.beneficiaries[i].votes == backing(before.lockers, i));
                }
            }
        }
        r
    }

    /// Escrows `amount` for `duration` seconds from `now` and returns the new locker's
    /// position. Its votes are fixed here and it votes for nobody yet; the host moves the
    /// tokens into escrow and mints the single receipt token.
    pub fn create_locker(&mut self, id: Address, receipt: Address, amount: u64, duration: u64, now: i64) -> (r: usize)
        requires
            old(self)@.wf(),
            votes_spec(amount as int, duration as int, old(self)@.ouroboros.time_multiplier as int) <= u64::MAX,
            now + duration <= i64::MAX,
        ensures
            final(self)@.wf(),
            r == old(self)@.lockers.len(),
            final(self)@ == (EscrowView {
                lockers: old(self)@.lockers.push(Locker {
                    id,
                    receipt,
                    beneficiary: None,
                    amount,
                    votes: votes_spec(amount as int, duration as int, old(self)@.ouroboros.time_multiplier as int) as u64,
                    creation_timestamp: now,
                    unlock_timestamp: (now + duration) as i64,
                }),
                ..old(self)@
            }),
    {
        let votes = self.ouroboros.locker_votes(amount, duration);
        let l = Locker {
            id,
            receipt,
            beneficiary: None,
            amount,
            votes,
            creation_timestamp: now,
            unlock_timestamp: (now as i128 + duration as i128) as i64,
        };
        let r = self.lockers.len();
        let ghost before = self@;
        self.lockers.push(l);
        proof {
            assert forall|k: int| 0 <= k < self@.lockers.len() implies #[trigger] points_below(self@.lockers[k], self@.beneficiaries.len() as int) by {
                if k < r {
                    assert(points_below(before.lockers[k], before.beneficiaries.len() as int));
                }
            }
            assert forall|i: int| 0 <= i < self@.beneficiaries.len() implies #[trigger] self@.beneficiaries[i].votes == backing(self@.lockers, i) by {
                assert(before.beneficiaries[i].votes == backing(before.lockers, i));
                lemma_backing_push(before.lockers, l, i);
            }
        }
        r
    }

    /// Whether beneficiary `i` has been settled for the current epoch.
    pub fn is_settled(&self, i: usize) -> (r: bool)
        requires
            i < self@.beneficiaries.len(),
        ensures
            r == self@.settled(i as int),
    {
        self.beneficiaries[i].last_update >= self.ouroboros.last_period
    }

    /// Points locker `k` at beneficiary `to`, moving its votes away from its current
    /// beneficiary if it has one. Refused while either side awaits settlement.
    pub fn cast_vote(&mut self, k: usize, to: usize) -> (r: Result<(), ErrorCode>)
        requires
            old(self)@.wf(),
            k < old(self)@.lockers.len(),
            to < old(self)@.beneficiaries.len(),
            old(self)@.lockers[k as int].beneficiary is None
                ==> old(self)@.ouroboros.total_votes + old(self)@.lockers[k as int].votes <= u64::MAX,
        ensures
            final(self)@.wf(),
            r is Err <==> old(self)@.vote_blocked(k as int, to as int),
            r matches Err(e) ==> e == ErrorCode::UnclaimedIncentives && final(self)@ == old(self)@,
            r is Ok ==> final(self)@ == old(self)@.with_vote(k as int, to as int),
    {
        let l = self.lockers[k];
        if !self.is_settled(to) {
            return Err(ErrorCode::UnclaimedIncentives);
        }
        if let Some(from) = l.beneficiary {
            proof {
                assert(points_below(self@.lockers[k as int], self@.beneficiaries.len() as int));
            }
            if !self.is_settled(from) {
                return Err(ErrorCode::UnclaimedIncentives);
            }
        }
        let ghost before = self@;
        let ghost target = before.with_vote(k as int, to as int);
        match l.beneficiary {
            Some(from) => {
                proof {
                    assert(before.beneficiaries[from as int].votes == backing(before.lockers, from as int));
                    lemma_backing_covers(before.lockers, k as int, from as int);
                }
                let mut old_b = self.beneficiaries[from];
                old_b.votes = old_b.votes - l.votes;
                self.beneficiaries.set(from, old_b);
            },
            None => {
                self.ouroboros.total_votes = self.ouroboros.total_votes + l.votes;
            },
        }
        let ghost left = self@.beneficiaries;
        proof {
            // The destination's votes plus the moved votes never exceed the total.
            assert(before.beneficiaries[to as int].votes == backing(before.lockers, to as int));
            lemma_tally_covers_two(before.beneficiaries, to as int, match l.beneficiary { Some(f) => f as int, None => to as int });
            match l.beneficiary {
                Some(from) => {
                    if from != to {
                        assert(before.beneficiaries[from as int].votes >= l.votes) by {
                            lemma_backing_covers(before.lockers, k as int, from as int);
                        }
                    }
                },
                None => {},
            }
        }
        let mut new_b = self.beneficiaries[to];
        new_b.votes = new_b.votes + l.votes;
        self.beneficiaries.set(to, new_b);
        self.lockers.set(k, Locker { beneficiary: Some(to), ..l });
        proof {
            assert(self@.beneficiaries =~= target.beneficiaries);
            assert(self@.lockers =~= target.lockers);
            let moved = Locker { beneficiary: Some(to), ..l };
            // Tally: the moved votes leave one beneficiary and join another, or join the total.
            match l.beneficiary {
                Some(from) => {
                    lemma_tally_update(before.beneficiaries, from as int, left[from as int]);
                },
                None => {
                    assert(left =~= before.beneficiaries);
                },
            }
            lemma_tally_update(left, to as int, new_b);
            assert forall|j: int| 0 <= j < self@.lockers.len() implies #[trigger] points_below(self@.lockers[j], self@.beneficiaries.len() as int) by {
                if j != k {
                    assert(points_below(before.lockers[j], before.beneficiaries.len() as int));
                }
            }
            assert forall|i: int| 0 <= i < self@.beneficiaries.len() implies #[trigger] self@.beneficiaries[i].votes == backing(self@.lockers, i) by {
                assert(before.beneficiaries[i].votes == backing(before.lockers, i));
                lemma_backing_update(before.lockers, k as int, moved, i);
            }
        }
        Ok(())
    }

    /// First vote of a locker that votes for nobody yet.
    pub fn initialize_vote(&mut self, k: usize, to: usize) -> (r: Result<(), ErrorCode>)
        requires
            old(self)@.wf(),
            k < old(self)@.lockers.len(),
            to < old(self)@.beneficiaries.len(),
            old(self)@.lockers[k as int].beneficiary is None,
            old(self)@.ouroboros.total_votes + old(self)@.lockers[k as int].votes <= u64::MAX,
        ensures
            final(self)@.wf(),
            r is Err <==> old(self)@.vote_blocked(k as int, to as int),
            r matches Err(e) ==> e == ErrorCode::UnclaimedIncentives && final(self)@ == old(self)@,
            r is Ok ==> final(self)@ == old(self)@.with_vote(k as int, to as int),
    {
        self.cast_vote(k, to)
    }

    /// Moves the votes of a locker that already votes to beneficiary `to`.
    pub fn reset_vote(&mut self, k: usize, to: usize) -> (r: Result<(), ErrorCode>)
        requires
            old(self)@.wf(),
            k < old(self)@.lockers.len(),
            to < old(self)@.beneficiaries.len(),
            old(self)@.lockers[k as int].beneficiary is Some,
        ensures
            final(self)@.wf(),
            r is Err <==> old(self)@.vote_blocked(k as int, to as int),
            r matches Err(e) ==> e == ErrorCode::UnclaimedIncentives && final(self)@ == old(self)@,
            r is Ok ==> final(self)@ == old(self)@.with_vote(k as int, to as int),
    {
        self.cast_vote(k, to)
    }

    /// Settles beneficiary `i` at `now`, with `supply` tokens of the emitted mint in
    /// circulation: rolls the epoch if due, then, unless `i` is already settled for the
    /// current epoch, fixes its weight and returns the amount the host mints to its
    /// account (zero when already settled). `None` when the weight or the amount leaves
    /// its range; the state is then unchanged.
    pub fn claim_incentives(&mut self, i: usize, now: i64, supply: u64) -> (r: Option<u64>)
        requires
            old(self)@.wf(),
            i < old(self)@.beneficiaries.len(),
        ensures
            final(self)@.wf(),
            r matches Some(amount) ==> old(self)@.claim_outcome(i as int, now, supply as int) == Some((final(self)@, amount as int)),
            r is None ==> old(self)@.claim_outcome(i as int, now, supply as int) is None && final(self)@ == old(self)@,
    {
        let o = self.ouroboros.maybe_advance_epoch(now);
        let b = self.beneficiaries[i];
        if b.last_update >= o.last_period {
            self.ouroboros = o;
            return Some(0);
        }
        let weight: u16 = if o.last_period_votes == 0 {
            0
        } else {
            proof {
                crate::pools::curve::lemma_product_fits(BASIS_POINTS, b.votes);
            }
            let share: u128 = (BASIS_POINTS as u128) * (b.votes as u128) / (o.last_period_votes as u128);
            if share > u16::MAX as u128 {
                return None;
            }
            share as u16
        };
        if supply < o.total_votes {
            return None;
        }
        proof {
            crate::pools::curve::lemma_product_fits((supply - o.total_votes) as u64, o.expansion_factor);
        }
        let emissions: u128 = ((supply - o.total_votes) as u128) * (o.expansion_factor as u128) / (BASIS_POINTS as u128);
        let amount: u128;
        if weight == 0 {
            amount = 0;
            proof {
                assert(emissions * weight == 0) by (nonlinear_arith)
                    requires weight == 0;
            }
        } else {
            let limit: u128 = 0x1_0000_0000_0000_0000 * (BASIS_POINTS as u128);
            if emissions >= limit {
                proof {
                    assert(emissions * weight >= limit) by (nonlinear_arith)
                        requires emissions >= limit, weight >= 1;
                    lemma_div_is_ordered(limit as int, emissions * weight, BASIS_POINTS as int);
                }
                return None;
            }
            proof {
                assert(emissions * weight <= limit * 0xffff) by (nonlinear_arith)
                    requires emissions <= limit, weight <= 0xffff;
            }
            amount = emissions * (weight as u128) / (BASIS_POINTS as u128);
            if amount > u64::MAX as u128 {
                return None;
            }
        }
        self.ouroboros = o;
        let ghost before = self@;
        let settled = Beneficiary { weight, last_update: o.last_period, ..b };
        self.beneficiaries.set(i, settled);
        proof {
            lemma_tally_update(before.beneficiaries, i as int, settled);
            assert forall|j: int| 0 <= j < self@.beneficiaries.len() implies #[trigger] self@.beneficiaries[j].votes == backing(self@.lockers, j) by {
                assert(before.beneficiaries[j].votes == backing(before.lockers, j));
            }
            assert forall|k: int| 0 <= k < self@.lockers.len() implies #[trigger] points_below(self@.lockers[k], self@.beneficiaries.len() as int) by {
                assert(points_below(before.lockers[k], before.beneficiaries.len() as int));
            }
        }
        Some(amount as u64)
    }

    /// Rolls the epoch forward by one period if the clock has reached its end.
    pub fn advance_epoch(&mut self, now: i64)
        requires
            old(self)@.wf(),
        ensures
            final(self)@.wf(),
            final(self)@ == (EscrowView { ouroboros: old(self)@.ouroboros.rolled(now), ..old(self)@ }),
    {
        self.ouroboros = self.ouroboros.maybe_advance_epoch(now);
    }
}

} // verus!

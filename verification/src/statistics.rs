//! Run statistics: five counters tallied by the deduplication pass, with an
//! associative, commutative merge for combining partition results.

use vstd::prelude::*;

verus! {

/// Mathematical counter values.
pub struct Counters {
    pub blocked: nat,
    pub duplicate: nat,
    pub parent: nat,
    pub allowed: nat,
    pub distinct_allowed: nat,
}

/// Pairwise sum of two counter tuples.
pub open spec fn counters_add(a: Counters, b: Counters) -> Counters {
    Counters {
        blocked: a.blocked + b.blocked,
        duplicate: a.duplicate + b.duplicate,
        parent: a.parent + b.parent,
        allowed: a.allowed + b.allowed,
        distinct_allowed: a.distinct_allowed + b.distinct_allowed,
    }
}

/// Merging statistics is commutative: compiling partition A then B and
/// summing yields the same totals as B then A.
pub proof fn lemma_counters_add_commutes(a: Counters, b: Counters)
    ensures
        counters_add(a, b) == counters_add(b, a),
{
}

/// Merging statistics is associative.
pub proof fn lemma_counters_add_associates(a: Counters, b: Counters, c: Counters)
    ensures
        counters_add(counters_add(a, b), c) == counters_add(a, counters_add(b, c)),
{
}

/// Outcome tallies of one deduplication pass: how many candidates were newly
/// blocked, were exact duplicates, were redundant under a blocked ancestor,
/// or were allowed, and how many distinct names the allow-list saved.
pub struct Statistics {
    pub blocked: u64,
    pub duplicate: u64,
    pub parent: u64,
    pub allowed: u64,
    pub distinct_allowed: u64,
}

impl View for Statistics {
    type V = Counters;

    open spec fn view(&self) -> Counters {
        Counters {
            blocked: self.blocked as nat,
            duplicate: self.duplicate as nat,
            parent: self.parent as nat,
            allowed: self.allowed as nat,
            distinct_allowed: self.distinct_allowed as nat,
        }
    }
}

/// The counters that partition the candidate stream, summed.
pub open spec fn outcome_total(c: Counters) -> nat {
    c.blocked + c.duplicate + c.parent + c.allowed
}

impl Statistics {
    /// All counters zero.
    pub fn new() -> (r: Statistics)
        ensures
            r@ == (Counters { blocked: 0nat, duplicate: 0nat, parent: 0nat, allowed: 0nat,
                distinct_allowed: 0nat }),
    {
        Statistics { blocked: 0, duplicate: 0, parent: 0, allowed: 0, distinct_allowed: 0 }
    }

    pub fn increment_blocked(&mut self)
        requires
            old(self).blocked < u64::MAX,
        ensures
            final(self)@ == (Counters { blocked: old(self)@.blocked + 1, ..old(self)@ }),
    {
        self.blocked = self.blocked + 1;
    }

    pub fn increment_duplicate(&mut self)
        requires
            old(self).duplicate < u64::MAX,
        ensures
            final(self)@ == (Counters { duplicate: old(self)@.duplicate + 1, ..old(self)@ }),
    {
        self.duplicate = self.duplicate + 1;
    }

    pub fn increment_parent(&mut self)
        requires
            old(self).parent < u64::MAX,
        ensures
            final(self)@ == (Counters { parent: old(self)@.parent + 1, ..old(self)@ }),
    {
        self.parent = self.parent + 1;
    }

    pub fn increment_allowed(&mut self)
        requires
            old(self).allowed < u64::MAX,
        ensures
            final(self)@ == (Counters { allowed: old(self)@.allowed + 1, ..old(self)@ }),
    {
        self.allowed = self.allowed + 1;
    }

    pub fn increment_distinct_allowed(&mut self)
        requires
            old(self).distinct_allowed < u64::MAX,
        ensures
            final(self)@ == (Counters { distinct_allowed: old(self)@.distinct_allowed + 1, ..old(self)@ }),
    {
        self.distinct_allowed = self.distinct_allowed + 1;
    }

    /// Pairwise sum of two partition results.
    pub fn aggregate(a: &Statistics, b: &Statistics) -> (r: Statistics)
        requires
            a.blocked + b.blocked <= u64::MAX,
            a.duplicate + b.duplicate <= u64::MAX,
            a.parent + b.parent <= u64::MAX,
            a.allowed + b.allowed <= u64::MAX,
            a.distinct_allowed + b.distinct_allowed <= u64::MAX,
        ensures
            r@ == counters_add(a@, b@),
    {
        Statistics {
            blocked: a.blocked + b.blocked,
            duplicate: a.duplicate + b.duplicate,
            parent: a.parent + b.parent,
            allowed: a.allowed + b.allowed,
            distinct_allowed: a.distinct_allowed + b.distinct_allowed,
        }
    }

    /// Pairwise sum, with overflow reported instead of assumed away.
    pub fn try_aggregate(a: &Statistics, b: &Statistics) -> (r: Option<Statistics>)
        ensures
            match r {
                Some(s) => s@ == counters_add(a@, b@),
                None => a.blocked + b.blocked > u64::MAX || a.duplicate + b.duplicate > u64::MAX
                    || a.parent + b.parent > u64::MAX || a.allowed + b.allowed > u64::MAX
                    || a.distinct_allowed + b.distinct_allowed > u64::MAX,
            },
            (r is Some) == (a.blocked + b.blocked <= u64::MAX && a.duplicate + b.duplicate
                <= u64::MAX && a.parent + b.parent <= u64::MAX && a.allowed + b.allowed <= u64::MAX
                && a.distinct_allowed + b.distinct_allowed <= u64::MAX),
    {
        if a.blocked <= u64::MAX - b.blocked && a.duplicate <= u64::MAX - b.duplicate && a.parent
            <= u64::MAX - b.parent && a.allowed <= u64::MAX - b.allowed && a.distinct_allowed
            <= u64::MAX - b.distinct_allowed {
            Some(Statistics::aggregate(a, b))
        } else {
            None
        }
    }
}

} // verus!

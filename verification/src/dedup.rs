//! The hierarchy deduplication index: a single forward pass over the
//! specificity-sorted candidate stream that builds a minimal Block Index
//! while tallying outcomes.
//!
//! A candidate is dropped as parent-redundant when an ancestor suffix is
//! already blocked, dropped as allowed when the Allow-list Closure holds its
//! exact name, counted as a duplicate when already present, and otherwise
//! inserted; the checks happen in exactly that order.

use vstd::prelude::*;

use crate::domain::Domain;
use crate::hierarchy::{
    count_byte, is_strict_ancestor, lemma_ancestor_fewer_dots, lemma_count_byte_pos, DOT,
};
use crate::name_set::NameSet;
use crate::statistics::{outcome_total, Counters, Statistics};

verus! {

/// The two candidate partitions built independently: names ending in the
/// text `com`, and all others.
#[derive(Clone, Copy)]
pub enum Partition {
    Com,
    Other,
}

/// Whether a name ends in the three bytes `com`.
pub open spec fn ends_with_com(name: Seq<u8>) -> bool {
    name.len() >= 3 && name[name.len() - 3] == 99 && name[name.len() - 2] == 111 && name[name.len()
        - 1] == 109
}

/// Which names a partition takes.
pub open spec fn selects(part: Partition, name: Seq<u8>) -> bool {
    match part {
        Partition::Com => ends_with_com(name),
        Partition::Other => !ends_with_com(name),
    }
}

/// Runtime partition predicate.
pub fn selects_exec(part: Partition, name: &[u8]) -> (r: bool)
    ensures
        r == selects(part, name@),
{
    let ends = name.len() >= 3 && name[name.len() - 3] == 99 && name[name.len() - 2] == 111
        && name[name.len() - 1] == 109;
    match part {
        Partition::Com => ends,
        Partition::Other => !ends,
    }
}

/// The mathematical state of one deduplication pass: the Block Index, the
/// distinct allowed names seen, and the counters.
pub struct DedupState {
    pub index: Set<Seq<u8>>,
    pub seen_allowed: Set<Seq<u8>>,
    pub counters: Counters,
}

/// The state before any candidate was processed.
pub open spec fn initial_state() -> DedupState {
    DedupState {
        index: Set::empty(),
        seen_allowed: Set::empty(),
        counters: Counters {
            blocked: 0,
            duplicate: 0,
            parent: 0,
            allowed: 0,
            distinct_allowed: 0,
        },
    }
}

/// Whether some strict ancestor suffix of `name` is already blocked.
pub open spec fn has_blocked_ancestor(index: Set<Seq<u8>>, name: Seq<u8>) -> bool {
    exists|a: Seq<u8>| index.contains(a) && is_strict_ancestor(a, name)
}

/// One step of the pass: the redundancy check comes first, then the
/// allow-list, then insert-or-duplicate.
pub open spec fn dedup_step(st: DedupState, name: Seq<u8>, allow: Set<Seq<u8>>) -> DedupState {
    if has_blocked_ancestor(st.index, name) {
        DedupState { counters: Counters { parent: st.counters.parent + 1, ..st.counters }, ..st }
    } else if allow.contains(name) {
        DedupState {
            seen_allowed: st.seen_allowed.insert(name),
            counters: Counters {
                allowed: st.counters.allowed + 1,
                distinct_allowed: st.counters.distinct_allowed + if st.seen_allowed.contains(
                    name,
                ) {
                    0nat
                } else {
                    1nat
                },
                ..st.counters
            },
            ..st
        }
    } else if st.index.contains(name) {
        DedupState {
            counters: Counters { duplicate: st.counters.duplicate + 1, ..st.counters },
            ..st
        }
    } else {
        DedupState {
            index: st.index.insert(name),
            counters: Counters { blocked: st.counters.blocked + 1, ..st.counters },
            ..st
        }
    }
}

/// The pass over the first `n` candidates that the partition selects.
pub open spec fn dedup_run(
    names: Seq<Seq<u8>>,
    part: Partition,
    allow: Set<Seq<u8>>,
    n: int,
) -> DedupState
    decreases n,
{
    if n <= 0 {
        initial_state()
    } else {
        let prev = dedup_run(names, part, allow, n - 1);
        if selects(part, names[n - 1]) {
            dedup_step(prev, names[n - 1], allow)
        } else {
            prev
        }
    }
}

/// The names of a sequence of domain records.
pub open spec fn names_of(s: Seq<Domain>) -> Seq<Seq<u8>> {
    Seq::new(s.len(), |i: int| s[i].name@)
}

/// How many of the first `n` candidates the partition selects.
pub open spec fn count_selected(names: Seq<Seq<u8>>, part: Partition, n: int) -> nat
    decreases n,
{
    if n <= 0 {
        0
    } else {
        count_selected(names, part, n - 1) + if selects(part, names[n - 1]) {
            1nat
        } else {
            0nat
        }
    }
}

/// Adds one domain to the Block Index unless an ancestor is already blocked,
/// the name is allowed, or it is an exact duplicate; tallies the outcome.
#[verifier::loop_isolation(false)]
pub fn process_bad_domain(
    domain: &[u8],
    index: &mut NameSet,
    allow: &NameSet,
    statistics: &mut Statistics,
    allowed_seen: &mut NameSet,
)
    requires
        old(index).wf(),
        old(allowed_seen).wf(),
        outcome_total(old(statistics)@) < u64::MAX,
        old(statistics)@.distinct_allowed <= old(statistics)@.allowed,
    ensures
        final(index).wf(),
        final(allowed_seen).wf(),
        ({
            let st = dedup_step(
                DedupState {
                    index: old(index).as_set(),
                    seen_allowed: old(allowed_seen).as_set(),
                    counters: old(statistics)@,
                },
                domain@,
                allow.as_set(),
            );
            &&& final(index).as_set() == st.index
            &&& final(allowed_seen).as_set() == st.seen_allowed
            &&& final(statistics)@ == st.counters
        }),
        final(index)@ == old(index)@ || final(index)@ == old(index)@.push(domain@),
{
    let ghost st0 = DedupState {
        index: old(index).as_set(),
        seen_allowed: old(allowed_seen).as_set(),
        counters: old(statistics)@,
    };
    let mut p: usize = 0;
    while p < domain.len()
        invariant
            p <= domain@.len(),
            *statistics == *old(statistics),
            forall|a: Seq<u8>|
                is_strict_ancestor(a, domain@) && domain@.len() - a.len() - 1 < p
                    ==> !index@.contains(a),
        decreases domain@.len() - p,
    {
        if domain[p] == DOT {
            let nd = crate::scan::find_byte(domain, DOT, p + 1);
            if nd < domain.len() {
                let suffix = vstd::slice::slice_subrange(domain, p + 1, domain.len());
                proof {
                    assert(suffix@ =~= domain@.skip(p + 1));
                    assert(suffix@[nd - p - 1] == DOT);
                    lemma_count_byte_pos(suffix@, DOT);
                    assert(domain@.subrange(
                        domain@.len() - suffix@.len(),
                        domain@.len() as int,
                    ) =~= suffix@);
                    assert(is_strict_ancestor(suffix@, domain@));
                }
                if index.contains(suffix) {
                    proof {
                        assert(st0.index.contains(suffix@));
                        assert(has_blocked_ancestor(st0.index, domain@));
                    }
                    statistics.increment_parent();
                    return ;
                }
            } else {
                proof {
                    // the suffix after this dot has a single label, so it is
                    // no ancestor: any ancestor cut here would hold a dot
                    assert forall|a: Seq<u8>|
                        is_strict_ancestor(a, domain@) && domain@.len() - a.len() - 1 == p as int
                            implies !index@.contains(a) by {
                        assert(a =~= domain@.skip(p + 1));
                        lemma_count_byte_pos(a, DOT);
                        let k = choose|k: int| 0 <= k < a.len() && a[k] == DOT;
                        assert(domain@[p + 1 + k] == DOT);
                        assert(false);
                    }
                }
            }
        }
        p = p + 1;
    }
    proof {
        assert(!has_blocked_ancestor(st0.index, domain@)) by {
            assert forall|a: Seq<u8>| is_strict_ancestor(a, domain@) implies !st0.index.contains(
                a,
            ) by {
                assert(domain@.len() - a.len() - 1 < p as int);
                assert(!index@.contains(a));
            }
        }
    }
    if allow.contains(domain) {
        statistics.increment_allowed();
        let added = allowed_seen.insert(vstd::slice::slice_to_vec(domain));
        if added {
            statistics.increment_distinct_allowed();
        }
    } else {
        let added = index.insert(vstd::slice::slice_to_vec(domain));
        if added {
            statistics.increment_blocked();
        } else {
            statistics.increment_duplicate();
            proof {
                assert(index.as_set() == st0.index.insert(domain@));
                assert(st0.index.insert(domain@) =~= st0.index);
            }
        }
    }
}

/// Builds the Block Index and Statistics for one partition of the candidate
/// stream, against a shared Allow-list Closure.
#[verifier::loop_isolation(false)]
pub fn process_baddies(bad_domains: &Vec<Domain>, allow: &NameSet, part: Partition) -> (r: (
    NameSet,
    Statistics,
))
    ensures
        r.0.wf(),
        ({
            let st = dedup_run(
                names_of(bad_domains@),
                part,
                allow.as_set(),
                bad_domains@.len() as int,
            );
            &&& r.0.as_set() == st.index
            &&& r.1@ == st.counters
        }),
{
    let ghost names = names_of(bad_domains@);
    let mut index = NameSet::new();
    let mut statistics = Statistics::new();
    let mut allowed_seen = NameSet::new();
    proof {
        assert(index.as_set() =~= initial_state().index);
        assert(allowed_seen.as_set() =~= initial_state().seen_allowed);
    }
    let mut i: usize = 0;
    while i < bad_domains.len()
        invariant
            i <= bad_domains@.len(),
            index.wf(),
            allowed_seen.wf(),
            ({
                let st = dedup_run(names, part, allow.as_set(), i as int);
                &&& index.as_set() == st.index
                &&& allowed_seen.as_set() == st.seen_allowed
                &&& statistics@ == st.counters
            }),
        decreases bad_domains@.len() - i,
    {
        proof {
            lemma_run_counters(names, part, allow.as_set(), i as int);
        }
        let d = &bad_domains[i];
        if selects_exec(part, d.name.as_slice()) {
            process_bad_domain(d.name.as_slice(), &mut index, allow, &mut statistics,
                &mut allowed_seen);
        }
        i = i + 1;
    }
    (index, statistics)
}

/// The outcome counters of a pass partition the selected candidates: blocked,
/// duplicate, parent-redundant and allowed sum to the number of candidates
/// the partition selected, and at most `allowed` distinct names were allowed.
pub proof fn lemma_run_counters(names: Seq<Seq<u8>>, part: Partition, allow: Set<Seq<u8>>, n: int)
    ensures
        outcome_total(dedup_run(names, part, allow, n).counters) == count_selected(names, part, n),
        dedup_run(names, part, allow, n).counters.distinct_allowed <= dedup_run(
            names,
            part,
            allow,
            n,
        ).counters.allowed,
        count_selected(names, part, n) <= if n <= 0 {
            0int
        } else {
            n
        },
    decreases n,
{
    if n > 0 {
        lemma_run_counters(names, part, allow, n - 1);
    }
}

/// Nothing in the Allow-list Closure is ever blocked: the closure and the
/// Block Index of a pass are disjoint, whatever the input stream holds.
pub proof fn lemma_allowed_never_blocked(
    names: Seq<Seq<u8>>,
    part: Partition,
    allow: Set<Seq<u8>>,
    n: int,
)
    ensures
        forall|x: Seq<u8>|
            allow.contains(x) ==> !dedup_run(names, part, allow, n).index.contains(x),
    decreases n,
{
    if n > 0 {
        lemma_allowed_never_blocked(names, part, allow, n - 1);
    }
}

/// The candidate stream is ordered by non-decreasing specificity.
pub open spec fn sorted_by_dots(names: Seq<Seq<u8>>) -> bool {
    forall|i: int, j: int|
        0 <= i <= j < names.len() ==> count_byte(#[trigger] names[i], DOT) <= count_byte(
            #[trigger] names[j],
            DOT,
        )
}

/// On a specificity-sorted stream the Block Index of a pass is minimal: no
/// entry has a strict ancestor suffix that is also an entry.
pub proof fn lemma_no_redundant_entries(
    names: Seq<Seq<u8>>,
    part: Partition,
    allow: Set<Seq<u8>>,
    n: int,
)
    requires
        sorted_by_dots(names),
        n <= names.len(),
    ensures
        forall|x: Seq<u8>|
            #[trigger] dedup_run(names, part, allow, n).index.contains(x) ==> exists|j: int|
                0 <= j < n && names[j] == x,
        forall|d: Seq<u8>, a: Seq<u8>|
            dedup_run(names, part, allow, n).index.contains(d) && is_strict_ancestor(a, d)
                ==> !dedup_run(names, part, allow, n).index.contains(a),
    decreases n,
{
    if n > 0 {
        lemma_no_redundant_entries(names, part, allow, n - 1);
        let prev = dedup_run(names, part, allow, n - 1);
        let cur = dedup_run(names, part, allow, n);
        let name = names[n - 1];
        assert forall|x: Seq<u8>| #[trigger] cur.index.contains(x) implies exists|j: int|
            0 <= j < n && names[j] == x by {
            if prev.index.contains(x) {
                let j = choose|j: int| 0 <= j < n - 1 && names[j] == x;
                assert(names[j] == x);
            } else {
                assert(names[n - 1] == x);
            }
        }
        assert forall|d: Seq<u8>, a: Seq<u8>|
            cur.index.contains(d) && is_strict_ancestor(a, d) implies !cur.index.contains(a) by {
            if cur.index.contains(a) {
                if prev.index.contains(d) && prev.index.contains(a) {
                    // impossible by the induction hypothesis
                } else if prev.index.contains(d) && a == name {
                    // the new entry would be an ancestor of an older entry,
                    // but ancestors have strictly fewer dots and the stream
                    // is sorted by dots
                    lemma_ancestor_fewer_dots(a, d);
                    let j = choose|j: int| 0 <= j < n - 1 && names[j] == d;
                    assert(count_byte(names[j], DOT) <= count_byte(names[n - 1], DOT));
                    assert(false);
                } else {
                    // d is the new entry: it was only inserted because no
                    // blocked ancestor existed
                    assert(d == name);
                    assert(!has_blocked_ancestor(prev.index, name));
                    assert(prev.index.contains(a) || a == name);
                    if a == name {
                        assert(a.len() < d.len());
                        assert(false);
                    } else {
                        assert(false);
                    }
                }
            }
        }
    }
}

} // verus!

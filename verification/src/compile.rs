//! The compile entry point: parse candidates from local and remote list
//! texts, sort them by specificity, build the Allow-list Closure, and
//! deduplicate each partition against it.

use vstd::prelude::*;

use crate::allowlist::{expand_whitelist, spec_closure};
use crate::dedup::{
    count_selected, dedup_run, lemma_allowed_never_blocked, lemma_no_redundant_entries,
    lemma_run_counters, names_of, process_baddies, DedupState, Partition,
};
use crate::domain::{collect_domains, spec_domains, Domain};
use crate::hierarchy::is_strict_ancestor;
use crate::name_set::NameSet;
use crate::sorting::{lemma_isort_sorted, sort_by_specificity, spec_isort};
use crate::statistics::{outcome_total, Statistics};

verus! {

/// The names parsed from the first `k` texts, concatenated in order.
pub open spec fn spec_all_names(texts: Seq<Seq<u8>>, k: int) -> Seq<Seq<u8>>
    decreases k,
{
    if k <= 0 {
        Seq::empty()
    } else {
        spec_all_names(texts, k - 1) + spec_domains(texts[k - 1])
    }
}

/// The full candidate stream of a run: local block files first, then remote
/// payloads.
pub open spec fn spec_candidates(block_texts: Seq<Seq<u8>>, remote_texts: Seq<Seq<u8>>) -> Seq<
    Seq<u8>,
> {
    spec_all_names(block_texts, block_texts.len() as int) + spec_all_names(
        remote_texts,
        remote_texts.len() as int,
    )
}

/// What one partition of a run produces, as a function of the run's inputs.
pub open spec fn spec_compile_part(
    block_texts: Seq<Seq<u8>>,
    remote_texts: Seq<Seq<u8>>,
    allow_text: Seq<u8>,
    cnames: Seq<Seq<u8>>,
    part: Partition,
) -> DedupState {
    let names = spec_isort(spec_candidates(block_texts, remote_texts));
    dedup_run(names, part, spec_closure(allow_text, cnames), names.len() as int)
}

/// The outcome of a run: one Block Index and one statistics record per
/// partition.
pub struct CompileResult {
    pub index_com: NameSet,
    pub index_net: NameSet,
    pub stats_com: Statistics,
    pub stats_net: Statistics,
}

impl CompileResult {
    /// The results describe exactly the two partitions of the run on the
    /// given inputs.
    pub open spec fn matches(
        &self,
        block_texts: Seq<Seq<u8>>,
        remote_texts: Seq<Seq<u8>>,
        allow_text: Seq<u8>,
        cnames: Seq<Seq<u8>>,
    ) -> bool {
        let com = spec_compile_part(block_texts, remote_texts, allow_text, cnames, Partition::Com);
        let net = spec_compile_part(
            block_texts,
            remote_texts,
            allow_text,
            cnames,
            Partition::Other,
        );
        &&& self.index_com.wf()
        &&& self.index_net.wf()
        &&& self.index_com.as_set() == com.index
        &&& self.index_net.as_set() == net.index
        &&& self.stats_com@ == com.counters
        &&& self.stats_net@ == net.counters
    }
}

/// Collects the domains parsed from every text into `into`.
#[verifier::loop_isolation(false)]
fn collect_all(texts: &Vec<Vec<u8>>, into: &mut Vec<Domain>)
    requires
        forall|i: int| 0 <= i < old(into)@.len() ==> (#[trigger] old(into)@[i]).wf(),
    ensures
        forall|i: int| 0 <= i < final(into)@.len() ==> (#[trigger] final(into)@[i]).wf(),
        names_of(final(into)@) == names_of(old(into)@) + spec_all_names(
            texts.deep_view(),
            texts@.len() as int,
        ),
{
    let ghost texts_v = texts.deep_view();
    let mut i: usize = 0;
    proof {
        assert(names_of(into@) =~= names_of(old(into)@) + spec_all_names(texts_v, 0));
    }
    while i < texts.len()
        invariant
            i <= texts@.len(),
            forall|k: int| 0 <= k < into@.len() ==> (#[trigger] into@[k]).wf(),
            names_of(into@) == names_of(old(into)@) + spec_all_names(texts_v, i as int),
        decreases texts@.len() - i,
    {
        proof {
            assert(texts_v[i as int] == texts@[i as int]@);
        }
        let t = &texts[i];
        let mut parsed = collect_domains(t.as_slice());
        let ghost pre = into@;
        let ghost parsed_v = parsed@;
        into.append(&mut parsed);
        proof {
            assert(names_of(into@) =~= names_of(pre) + names_of(parsed_v));
            assert(names_of(pre) + names_of(parsed_v) =~= names_of(old(into)@) + spec_all_names(
                texts_v,
                i as int + 1,
            ));
        }
        i = i + 1;
    }
}

/// Compiles block-list texts and an allow-list into the two partitioned
/// Block Indices and their statistics.
///
/// `block_texts` are the local block files, `remote_texts` the fetched
/// remote payloads, `allow_text` the allow-file body, and `cnames` the DNS
/// alias names resolved for the allowed entries. Beyond describing exactly
/// the two partition runs, the result carries the run's laws: the indices
/// are minimal, the Allow-list Closure is never blocked, and the outcome
/// counters sum to the number of parsed candidates.
pub fn compile(
    block_texts: &Vec<Vec<u8>>,
    remote_texts: &Vec<Vec<u8>>,
    allow_text: &[u8],
    cnames: &Vec<Vec<u8>>,
) -> (r: CompileResult)
    ensures
        r.matches(block_texts.deep_view(), remote_texts.deep_view(), allow_text@,
            cnames.deep_view()),
        forall|d: Seq<u8>, a: Seq<u8>|
            r.index_com.as_set().contains(d) && is_strict_ancestor(a, d)
                ==> !r.index_com.as_set().contains(a),
        forall|d: Seq<u8>, a: Seq<u8>|
            r.index_net.as_set().contains(d) && is_strict_ancestor(a, d)
                ==> !r.index_net.as_set().contains(a),
        forall|x: Seq<u8>|
            spec_closure(allow_text@, cnames.deep_view()).contains(x)
                ==> !r.index_com.as_set().contains(x) && !r.index_net.as_set().contains(x),
        outcome_total(r.stats_com@) + outcome_total(r.stats_net@) == spec_candidates(
            block_texts.deep_view(),
            remote_texts.deep_view(),
        ).len(),
{
    let mut domains: Vec<Domain> = Vec::new();
    proof {
        assert(names_of(domains@) =~= Seq::<Seq<u8>>::empty());
    }
    collect_all(block_texts, &mut domains);
    collect_all(remote_texts, &mut domains);
    proof {
        assert(Seq::<Seq<u8>>::empty() + spec_all_names(
            block_texts.deep_view(),
            block_texts@.len() as int,
        ) =~= spec_all_names(block_texts.deep_view(), block_texts@.len() as int));
        assert(names_of(domains@) =~= spec_candidates(
            block_texts.deep_view(),
            remote_texts.deep_view(),
        ));
    }
    let sorted = sort_by_specificity(domains);
    let allow = expand_whitelist(allow_text, cnames);
    let (index_com, stats_com) = process_baddies(&sorted, &allow, Partition::Com);
    let (index_net, stats_net) = process_baddies(&sorted, &allow, Partition::Other);
    proof {
        lemma_compile_no_redundant_entries(block_texts.deep_view(), remote_texts.deep_view(),
            allow_text@, cnames.deep_view(), Partition::Com);
        lemma_compile_no_redundant_entries(block_texts.deep_view(), remote_texts.deep_view(),
            allow_text@, cnames.deep_view(), Partition::Other);
        lemma_compile_allow_precedence(block_texts.deep_view(), remote_texts.deep_view(),
            allow_text@, cnames.deep_view(), Partition::Com);
        lemma_compile_allow_precedence(block_texts.deep_view(), remote_texts.deep_view(),
            allow_text@, cnames.deep_view(), Partition::Other);
        lemma_compile_statistics_sum(block_texts.deep_view(), remote_texts.deep_view(),
            allow_text@, cnames.deep_view());
    }
    CompileResult { index_com, index_net, stats_com, stats_net }
}

/// Minimality of the Block Index: after a run, no entry of a partition's
/// index has a strict ancestor suffix that is also an entry of that index.
pub proof fn lemma_compile_no_redundant_entries(
    block_texts: Seq<Seq<u8>>,
    remote_texts: Seq<Seq<u8>>,
    allow_text: Seq<u8>,
    cnames: Seq<Seq<u8>>,
    part: Partition,
)
    ensures
        forall|d: Seq<u8>, a: Seq<u8>|
            spec_compile_part(block_texts, remote_texts, allow_text, cnames, part).index.contains(
                d,
            ) && is_strict_ancestor(a, d) ==> !spec_compile_part(
                block_texts,
                remote_texts,
                allow_text,
                cnames,
                part,
            ).index.contains(a),
{
    let names = spec_isort(spec_candidates(block_texts, remote_texts));
    lemma_isort_sorted(spec_candidates(block_texts, remote_texts));
    lemma_no_redundant_entries(
        names,
        part,
        spec_closure(allow_text, cnames),
        names.len() as int,
    );
}

/// Allow-list precedence: a name in the Allow-list Closure never appears in
/// either Block Index, whatever the list sources held.
pub proof fn lemma_compile_allow_precedence(
    block_texts: Seq<Seq<u8>>,
    remote_texts: Seq<Seq<u8>>,
    allow_text: Seq<u8>,
    cnames: Seq<Seq<u8>>,
    part: Partition,
)
    ensures
        forall|x: Seq<u8>|
            spec_closure(allow_text, cnames).contains(x) ==> !spec_compile_part(
                block_texts,
                remote_texts,
                allow_text,
                cnames,
                part,
            ).index.contains(x),
{
    let names = spec_isort(spec_candidates(block_texts, remote_texts));
    lemma_allowed_never_blocked(
        names,
        part,
        spec_closure(allow_text, cnames),
        names.len() as int,
    );
}

/// The two partitions take complementary subsets of the stream.
proof fn lemma_partitions_complement(names: Seq<Seq<u8>>, n: int)
    requires
        n >= 0,
    ensures
        count_selected(names, Partition::Com, n) + count_selected(names, Partition::Other, n)
            == n,
    decreases n,
{
    if n > 0 {
        lemma_partitions_complement(names, n - 1);
    }
}

/// The statistics invariant: over both partitions, blocked, duplicate,
/// parent-redundant and allowed outcomes sum to the number of domains
/// successfully parsed from all sources, and in each partition at most
/// `allowed` distinct names were allowed.
pub proof fn lemma_compile_statistics_sum(
    block_texts: Seq<Seq<u8>>,
    remote_texts: Seq<Seq<u8>>,
    allow_text: Seq<u8>,
    cnames: Seq<Seq<u8>>,
)
    ensures
        outcome_total(
            spec_compile_part(
                block_texts,
                remote_texts,
                allow_text,
                cnames,
                Partition::Com,
            ).counters,
        ) + outcome_total(
            spec_compile_part(
                block_texts,
                remote_texts,
                allow_text,
                cnames,
                Partition::Other,
            ).counters,
        ) == spec_candidates(block_texts, remote_texts).len(),
        spec_compile_part(
            block_texts,
            remote_texts,
            allow_text,
            cnames,
            Partition::Com,
        ).counters.distinct_allowed <= spec_compile_part(
            block_texts,
            remote_texts,
            allow_text,
            cnames,
            Partition::Com,
        ).counters.allowed,
        spec_compile_part(
            block_texts,
            remote_texts,
            allow_text,
            cnames,
            Partition::Other,
        ).counters.distinct_allowed <= spec_compile_part(
            block_texts,
            remote_texts,
            allow_text,
            cnames,
            Partition::Other,
        ).counters.allowed,
{
    let names = spec_isort(spec_candidates(block_texts, remote_texts));
    let allow = spec_closure(allow_text, cnames);
    lemma_isort_sorted(spec_candidates(block_texts, remote_texts));
    lemma_run_counters(names, Partition::Com, allow, names.len() as int);
    lemma_run_counters(names, Partition::Other, allow, names.len() as int);
    lemma_partitions_complement(names, names.len() as int);
}

/// Idempotence: the run is a function of its inputs, so two runs on
/// identical inputs produce identical Block Indices and statistics.
pub proof fn lemma_compile_deterministic(
    block_texts1: Seq<Seq<u8>>,
    remote_texts1: Seq<Seq<u8>>,
    allow_text1: Seq<u8>,
    cnames1: Seq<Seq<u8>>,
    block_texts2: Seq<Seq<u8>>,
    remote_texts2: Seq<Seq<u8>>,
    allow_text2: Seq<u8>,
    cnames2: Seq<Seq<u8>>,
    part: Partition,
)
    requires
        block_texts1 == block_texts2,
        remote_texts1 == remote_texts2,
        allow_text1 == allow_text2,
        cnames1 == cnames2,
    ensures
        spec_compile_part(block_texts1, remote_texts1, allow_text1, cnames1, part)
            == spec_compile_part(block_texts2, remote_texts2, allow_text2, cnames2, part),
{
}

} // verus!

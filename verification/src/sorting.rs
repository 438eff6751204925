//! Sorting the candidate stream by ascending specificity, so that every
//! ancestor suffix is processed before its descendants.
//!
//! The sort is pinned to a mathematical insertion sort, which makes the
//! whole pipeline a function of its inputs.

use vstd::prelude::*;

use crate::dedup::{names_of, sorted_by_dots};
use crate::domain::Domain;
use crate::hierarchy::{count_byte, DOT};

verus! {

/// Stable insertion of `x` into a name sequence sorted by dot count.
pub open spec fn spec_insert(s: Seq<Seq<u8>>, x: Seq<u8>) -> Seq<Seq<u8>>
    decreases s.len(),
{
    if s.len() == 0 {
        seq![x]
    } else if count_byte(s.last(), DOT) <= count_byte(x, DOT) {
        s.push(x)
    } else {
        spec_insert(s.drop_last(), x).push(s.last())
    }
}

/// Insertion sort of a name sequence by dot count, keeping the input order
/// of names with equal counts.
pub open spec fn spec_isort(s: Seq<Seq<u8>>) -> Seq<Seq<u8>>
    decreases s.len(),
{
    if s.len() == 0 {
        s
    } else {
        spec_insert(spec_isort(s.drop_last()), s.last())
    }
}

/// Inserting at the position found by a right-to-left scan is the
/// mathematical insertion.
proof fn lemma_insert_at(s: Seq<Seq<u8>>, x: Seq<u8>, j: int)
    requires
        0 <= j <= s.len(),
        forall|k: int| j <= k < s.len() ==> count_byte(#[trigger] s[k], DOT) > count_byte(x, DOT),
        j > 0 ==> count_byte(s[j - 1], DOT) <= count_byte(x, DOT),
    ensures
        spec_insert(s, x) == s.insert(j, x),
    decreases s.len(),
{
    if s.len() == 0 {
        assert(spec_insert(s, x) =~= s.insert(0, x));
    } else if count_byte(s.last(), DOT) <= count_byte(x, DOT) {
        assert(j == s.len());
        assert(spec_insert(s, x) =~= s.insert(j, x));
    } else {
        lemma_insert_at(s.drop_last(), x, j);
        assert(spec_insert(s, x) =~= s.insert(j, x));
    }
}

/// `spec_insert` keeps sortedness and adds one element.
pub proof fn lemma_insert_sorted(s: Seq<Seq<u8>>, x: Seq<u8>)
    requires
        sorted_by_dots(s),
    ensures
        sorted_by_dots(spec_insert(s, x)),
        spec_insert(s, x).len() == s.len() + 1,
        spec_insert(s, x).to_multiset() == s.to_multiset().insert(x),
    decreases s.len(),
{
    broadcast use vstd::seq_lib::group_to_multiset_ensures;

    if s.len() == 0 {
        assert(seq![x].drop_last() =~= Seq::<Seq<u8>>::empty());
        assert(seq![x] =~= Seq::<Seq<u8>>::empty().push(x));
    } else if count_byte(s.last(), DOT) <= count_byte(x, DOT) {
        assert(sorted_by_dots(s.push(x)));
    } else {
        assert(sorted_by_dots(s.drop_last()));
        lemma_insert_sorted(s.drop_last(), x);
        let t = spec_insert(s.drop_last(), x);
        assert forall|i: int, j: int| 0 <= i <= j < t.push(s.last()).len() implies count_byte(
            #[trigger] t.push(s.last())[i],
            DOT,
        ) <= count_byte(#[trigger] t.push(s.last())[j], DOT) by {
            if j == t.len() {
                if i < t.len() {
                    // every element of the insertion came from s.drop_last()
                    // or is x, and all of them have at most s.last()'s count
                    assert(t.to_multiset().contains(t[i]));
                    assert(s.drop_last().to_multiset().insert(x).contains(t[i]));
                    if t[i] == x {
                    } else {
                        assert(s.drop_last().to_multiset().contains(t[i]));
                        let k = s.drop_last().to_multiset().count(t[i]);
                        lemma_multiset_member_index(s.drop_last(), t[i]);
                        let m = choose|m: int|
                            0 <= m < s.drop_last().len() && s.drop_last()[m] == t[i];
                        assert(count_byte(s[m], DOT) <= count_byte(s.last(), DOT));
                    }
                }
            }
        }
        assert(s.to_multiset() =~= s.drop_last().to_multiset().insert(s.last())) by {
            assert(s =~= s.drop_last().push(s.last()));
        }
        assert(t.push(s.last()).to_multiset() =~= s.to_multiset().insert(x));
    }
}

/// A name counted in a sequence's multiset occurs at some index.
proof fn lemma_multiset_member_index(s: Seq<Seq<u8>>, x: Seq<u8>)
    requires
        s.to_multiset().contains(x),
    ensures
        exists|i: int| 0 <= i < s.len() && s[i] == x,
{
    broadcast use vstd::seq_lib::group_to_multiset_ensures;

    assert(s.contains(x));
}

/// The insertion sort sorts, keeps the length and keeps the multiset of
/// names.
pub proof fn lemma_isort_sorted(s: Seq<Seq<u8>>)
    ensures
        sorted_by_dots(spec_isort(s)),
        spec_isort(s).len() == s.len(),
        spec_isort(s).to_multiset() == s.to_multiset(),
    decreases s.len(),
{
    broadcast use vstd::seq_lib::group_to_multiset_ensures;

    if s.len() > 0 {
        lemma_isort_sorted(s.drop_last());
        lemma_insert_sorted(spec_isort(s.drop_last()), s.last());
        assert(s =~= s.drop_last().push(s.last()));
        assert(s.to_multiset() =~= s.drop_last().to_multiset().insert(s.last()));
    }
}

/// Inserts a record into a vector sorted by specificity, directly before the
/// first run of strictly more specific records.
#[verifier::loop_isolation(false)]
fn insert_sorted(out: &mut Vec<Domain>, x: Domain)
    requires
        forall|i: int| 0 <= i < old(out)@.len() ==> (#[trigger] old(out)@[i]).wf(),
        x.wf(),
    ensures
        forall|i: int| 0 <= i < final(out)@.len() ==> (#[trigger] final(out)@[i]).wf(),
        names_of(final(out)@) == spec_insert(names_of(old(out)@), x.name@),
{
    let mut j = out.len();
    while j > 0
        invariant
            j <= out@.len(),
            *out == *old(out),
            forall|k: int|
                j <= k < out@.len() ==> count_byte((#[trigger] out@[k]).name@, DOT)
                    > count_byte(x.name@, DOT),
        decreases j,
    {
        if out[j - 1].specificity <= x.specificity {
            break ;
        }
        proof {
            assert(out@[j - 1].wf());
        }
        j = j - 1;
    }
    proof {
        if j > 0 {
            assert(out@[j - 1].wf());
        }
        lemma_insert_at(names_of(out@), x.name@, j as int);
    }
    let ghost pre = out@;
    out.insert(j, x);
    proof {
        assert(names_of(out@) =~= names_of(pre).insert(j as int, x.name@));
    }
}

/// Sorts the candidate records by ascending specificity; the result is the
/// mathematical insertion sort of the input names.
#[verifier::loop_isolation(false)]
pub fn sort_by_specificity(v: Vec<Domain>) -> (r: Vec<Domain>)
    requires
        forall|i: int| 0 <= i < v@.len() ==> (#[trigger] v@[i]).wf(),
    ensures
        forall|i: int| 0 <= i < r@.len() ==> (#[trigger] r@[i]).wf(),
        names_of(r@) == spec_isort(names_of(v@)),
        sorted_by_dots(names_of(r@)),
{
    let ghost orig = v@;
    let mut input = v;
    let mut out: Vec<Domain> = Vec::new();
    proof {
        assert(names_of(out@) =~= spec_isort(names_of(orig).take(0)));
    }
    while input.len() > 0
        invariant
            input@.len() <= orig.len(),
            input@ =~= orig.skip(orig.len() - input@.len()),
            forall|i: int| 0 <= i < input@.len() ==> (#[trigger] input@[i]).wf(),
            forall|i: int| 0 <= i < out@.len() ==> (#[trigger] out@[i]).wf(),
            names_of(out@) == spec_isort(names_of(orig).take(orig.len() - input@.len())),
        decreases input@.len(),
    {
        let ghost done = orig.len() - input@.len();
        let d = input.remove(0);
        proof {
            assert(d == orig[done]);
            assert(input@ =~= orig.skip(done + 1));
            let taken = names_of(orig).take(done + 1);
            assert(taken.drop_last() =~= names_of(orig).take(done));
            assert(taken.last() == d.name@);
        }
        insert_sorted(&mut out, d);
    }
    proof {
        assert(names_of(orig).take(orig.len() as int) =~= names_of(orig));
        lemma_isort_sorted(names_of(orig));
    }
    out
}

} // verus!

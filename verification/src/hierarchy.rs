//! Subdomain hierarchy utilities: counting label separators (a domain's
//! specificity) and enumerating ancestor suffixes of a domain name.

use vstd::prelude::*;

verus! {

/// The label separator in a domain name: the byte `'.'`.
pub const DOT: u8 = 46;

/// Number of occurrences of `b` in `s`.
pub open spec fn count_byte(s: Seq<u8>, b: u8) -> nat
    decreases s.len(),
{
    if s.len() == 0 {
        0
    } else {
        count_byte(s.drop_last(), b) + if s.last() == b {
            1nat
        } else {
            0nat
        }
    }
}

proof fn lemma_count_byte_le_len(s: Seq<u8>, b: u8)
    ensures
        count_byte(s, b) <= s.len(),
    decreases s.len(),
{
    if s.len() > 0 {
        lemma_count_byte_le_len(s.drop_last(), b);
    }
}

/// Counts how often a byte occurs in a text, e.g. dots in a name or
/// newlines in a file body.
#[verifier::loop_isolation(false)]
pub fn count_char_occurences(text: &[u8], c: u8) -> (n: usize)
    ensures
        n == count_byte(text@, c),
{
    proof {
        lemma_count_byte_le_len(text@, c);
    }
    let mut n: usize = 0;
    let mut i: usize = 0;
    while i < text.len()
        invariant
            i <= text@.len(),
            n == count_byte(text@.take(i as int), c),
            count_byte(text@, c) <= text@.len(),
        decreases text@.len() - i,
    {
        proof {
            assert(text@.take(i + 1).drop_last() =~= text@.take(i as int));
            lemma_count_byte_le_len(text@.take(i + 1), c);
        }
        if text[i] == c {
            n = n + 1;
        }
        i = i + 1;
    }
    proof {
        assert(text@.take(text@.len() as int) =~= text@);
    }
    n
}

/// `a` is a strict ancestor suffix of `d`: a proper suffix that starts at a
/// label boundary and still has at least two labels of its own.
pub open spec fn is_strict_ancestor(a: Seq<u8>, d: Seq<u8>) -> bool {
    &&& a.len() < d.len()
    &&& d[d.len() - a.len() - 1] == DOT
    &&& d.subrange(d.len() - a.len(), d.len() as int) == a
    &&& count_byte(a, DOT) >= 1
}

/// Occurrences of a byte split across a cut point.
pub proof fn lemma_count_split(s: Seq<u8>, b: u8, k: int)
    requires
        0 <= k <= s.len(),
    ensures
        count_byte(s, b) == count_byte(s.take(k), b) + count_byte(s.skip(k), b),
    decreases s.len(),
{
    if k == s.len() {
        assert(s.take(k) =~= s);
        assert(s.skip(k) =~= Seq::<u8>::empty());
    } else {
        lemma_count_split(s.drop_last(), b, k);
        assert(s.drop_last().take(k) =~= s.take(k));
        assert(s.drop_last().skip(k) =~= s.skip(k).drop_last());
    }
}

/// A byte occurs in `s` exactly when its count is positive.
pub proof fn lemma_count_byte_pos(s: Seq<u8>, b: u8)
    ensures
        count_byte(s, b) >= 1 <==> exists|i: int| 0 <= i < s.len() && s[i] == b,
    decreases s.len(),
{
    if s.len() > 0 {
        lemma_count_byte_pos(s.drop_last(), b);
        if s.last() == b {
            assert(s[s.len() - 1] == b);
        } else if exists|i: int| 0 <= i < s.len() && s[i] == b {
            let i = choose|i: int| 0 <= i < s.len() && s[i] == b;
            assert(s.drop_last()[i] == b);
        }
    }
}

/// A strict ancestor has strictly fewer label separators than its descendant.
pub proof fn lemma_ancestor_fewer_dots(a: Seq<u8>, d: Seq<u8>)
    requires
        is_strict_ancestor(a, d),
    ensures
        count_byte(a, DOT) < count_byte(d, DOT),
{
    let k = d.len() - a.len();
    lemma_count_split(d, DOT, k);
    assert(d.skip(k) =~= d.subrange(k, d.len() as int));
    assert(d.take(k)[k - 1] == DOT);
    lemma_count_byte_pos(d.take(k), DOT);
}

/// The ancestor suffixes of `name` that contain at least `min_dots` label
/// separators, from most specific to least specific.
#[verifier::loop_isolation(false)]
pub fn sub_domain_iterator(name: &[u8], min_dots: usize) -> (r: Vec<Vec<u8>>)
    requires
        min_dots >= 1,
    ensures
        forall|i: int|
            0 <= i < r@.len() ==> is_strict_ancestor(#[trigger] r@[i]@, name@) && count_byte(
                r@[i]@,
                DOT,
            ) >= min_dots,
        forall|a: Seq<u8>|
            is_strict_ancestor(a, name@) && count_byte(a, DOT) >= min_dots ==> exists|i: int|
                0 <= i < r@.len() && r@[i]@ == a,
        forall|i: int, j: int| 0 <= i < j < r@.len() ==> r@[i]@.len() > r@[j]@.len(),
{
    let mut out: Vec<Vec<u8>> = Vec::new();
    let total = count_char_occurences(name, DOT);
    let mut seen: usize = 0;
    let mut p: usize = 0;
    while p < name.len()
        invariant
            p <= name@.len(),
            seen == count_byte(name@.take(p as int), DOT),
            total == count_byte(name@, DOT),
            forall|i: int|
                0 <= i < out@.len() ==> is_strict_ancestor(#[trigger] out@[i]@, name@)
                    && count_byte(out@[i]@, DOT) >= min_dots,
            forall|a: Seq<u8>|
                is_strict_ancestor(a, name@) && count_byte(a, DOT) >= min_dots && name@.len()
                    - a.len() - 1 < p ==> exists|i: int| 0 <= i < out@.len() && out@[i]@ == a,
            forall|i: int| 0 <= i < out@.len() ==> (#[trigger] out@[i]@).len() >= name@.len() - p,
            forall|i: int, j: int| 0 <= i < j < out@.len() ==> out@[i]@.len() > out@[j]@.len(),
        decreases name@.len() - p,
    {
        proof {
            assert(name@.take(p + 1).drop_last() =~= name@.take(p as int));
            lemma_count_byte_le_len(name@.take(p + 1), DOT);
        }
        if name[p] == DOT {
            proof {
                lemma_count_split(name@, DOT, p + 1);
                assert(name@.take(p + 1).last() == DOT);
            }
            // the suffix after this dot holds the remaining separators
            let remaining = total - seen - 1;
            assert(count_byte(name@.skip(p + 1), DOT) == remaining);
            if remaining >= min_dots {
                let suffix = vstd::slice::slice_subrange(name, p + 1, name.len());
                assert(suffix@ =~= name@.skip(p + 1));
                assert(name@.subrange(name@.len() - suffix@.len(), name@.len() as int) =~= suffix@);
                let ghost out0 = out@;
                out.push(vstd::slice::slice_to_vec(suffix));
                proof {
                    assert forall|a: Seq<u8>|
                        is_strict_ancestor(a, name@) && count_byte(a, DOT) >= min_dots
                            && name@.len() - a.len() - 1 < p + 1 implies exists|i: int|
                        0 <= i < out@.len() && out@[i]@ == a by {
                        if name@.len() - a.len() - 1 == p as int {
                            assert(a =~= name@.skip(p + 1));
                            assert(out@[out@.len() - 1]@ == a);
                        } else {
                            let i = choose|i: int| 0 <= i < out0.len() && out0[i]@ == a;
                            assert(out@[i]@ == a);
                        }
                    }
                }
            } else {
                proof {
                    // any ancestor cut at this dot has too few separators
                    assert forall|a: Seq<u8>|
                        is_strict_ancestor(a, name@) && count_byte(a, DOT) >= min_dots
                            && name@.len() - a.len() - 1 < p + 1 implies exists|i: int|
                        0 <= i < out@.len() && out@[i]@ == a by {
                        if name@.len() - a.len() - 1 == p as int {
                            assert(a =~= name@.skip(p + 1));
                        }
                    }
                }
            }
            seen = seen + 1;
        }
        p = p + 1;
    }
    proof {
        assert forall|a: Seq<u8>|
            is_strict_ancestor(a, name@) && count_byte(a, DOT) >= min_dots implies exists|i: int|
            0 <= i < out@.len() && out@[i]@ == a by {
            assert(name@.len() - a.len() - 1 < p as int);
        }
    }
    out
}

} // verus!

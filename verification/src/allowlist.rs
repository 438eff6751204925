//! The Allow-list Closure: every explicitly allowed domain, every DNS alias
//! target handed in for one, and every ancestor suffix (down to two labels)
//! of each of them.

use vstd::prelude::*;

use crate::domain::{spec_parse_line, Domain, NEWLINE};
use crate::hierarchy::{count_byte, is_strict_ancestor, sub_domain_iterator, DOT};
use crate::name_set::NameSet;
use crate::scan::{find_byte, lemma_first_byte_from, first_byte_from};

verus! {

/// The names that one allowed name protects: itself and every ancestor
/// suffix with at least two labels.
pub open spec fn closure_of(n: Seq<u8>) -> Set<Seq<u8>> {
    Set::new(|a: Seq<u8>| a == n || is_strict_ancestor(a, n))
}

/// What one allow-list line contributes to the closure.
pub open spec fn line_closure(line: Seq<u8>) -> Set<Seq<u8>> {
    match spec_parse_line(line) {
        Some(n) => closure_of(n),
        None => Set::empty(),
    }
}

/// The contributions of all lines of `text` from position `i` on.
pub open spec fn text_closure_from(text: Seq<u8>, i: int) -> Set<Seq<u8>>
    decreases text.len() - i,
{
    if i < 0 || i >= text.len() {
        Set::empty()
    } else {
        proof {
            lemma_first_byte_from(text, NEWLINE, i);
        }
        let j = first_byte_from(text, NEWLINE, i);
        let rest = if j >= text.len() {
            Set::empty()
        } else {
            text_closure_from(text, j + 1)
        };
        line_closure(text.subrange(i, j)).union(rest)
    }
}

/// The contributions of the first `k` alias names, each treated as one line.
pub open spec fn lines_closure(lines: Seq<Seq<u8>>, k: int) -> Set<Seq<u8>>
    decreases k,
{
    if k <= 0 {
        Set::empty()
    } else {
        lines_closure(lines, k - 1).union(line_closure(lines[k - 1]))
    }
}

/// The full Allow-list Closure of an allow-file text and the alias names
/// resolved for it.
pub open spec fn spec_closure(text: Seq<u8>, cnames: Seq<Seq<u8>>) -> Set<Seq<u8>> {
    text_closure_from(text, 0).union(lines_closure(cnames, cnames.len() as int))
}

/// Adds one allow-list line to the closure index: the parsed domain and all
/// its ancestor suffixes down to two labels. Comment-only and invalid lines
/// add nothing.
#[verifier::loop_isolation(false)]
pub fn process_whitelist_line(line: &[u8], index: &mut NameSet)
    requires
        old(index).wf(),
    ensures
        final(index).wf(),
        final(index).as_set() == old(index).as_set().union(line_closure(line@)),
{
    let ghost start = old(index).as_set();
    match Domain::new(line) {
        None => {
            proof {
                assert(index.as_set() =~= start.union(line_closure(line@)));
            }
        },
        Some(d) => {
            let ghost n = d.name@;
            let ancestors = sub_domain_iterator(d.name.as_slice(), 1);
            let mut k: usize = 0;
            while k < ancestors.len()
                invariant
                    k <= ancestors@.len(),
                    index.wf(),
                    index.as_set() =~= start.union(
                        Set::new(
                            |x: Seq<u8>|
                                exists|j: int| 0 <= j < k as int && ancestors@[j]@ == x,
                        ),
                    ),
                decreases ancestors@.len() - k,
            {
                let a = &ancestors[k];
                index.insert(vstd::slice::slice_to_vec(a.as_slice()));
                proof {
                    assert(index.as_set() =~= start.union(
                        Set::new(
                            |x: Seq<u8>|
                                exists|j: int| 0 <= j < k as int + 1 && ancestors@[j]@ == x,
                        ),
                    ));
                }
                k = k + 1;
            }
            index.insert(d.name);
            proof {
                assert(index.as_set() =~= start.union(line_closure(line@))) by {
                    assert forall|x: Seq<u8>| #[trigger] closure_of(n).contains(x)
                        implies index.as_set().contains(x) by {
                        if x == n {
                        } else {
                            assert(is_strict_ancestor(x, n) && count_byte(x, DOT) >= 1);
                            let j = choose|j: int|
                                0 <= j < ancestors@.len() && ancestors@[j]@ == x;
                            assert(ancestors@[j]@ == x);
                        }
                    }
                }
            }
        },
    }
}

/// Expands an allow-file text and the alias names resolved for its entries
/// into the full Allow-list Closure.
#[verifier::loop_isolation(false)]
pub fn expand_whitelist(allow_text: &[u8], cnames: &Vec<Vec<u8>>) -> (r: NameSet)
    ensures
        r.wf(),
        r.as_set() == spec_closure(allow_text@, cnames.deep_view()),
{
    let mut index = NameSet::new();
    let mut i: usize = 0;
    proof {
        assert(index.as_set() =~= Set::<Seq<u8>>::empty());
    }
    while i < allow_text.len()
        invariant
            i <= allow_text@.len(),
            index.wf(),
            index.as_set().union(text_closure_from(allow_text@, i as int)) =~= text_closure_from(
                allow_text@,
                0,
            ),
        decreases allow_text@.len() - i,
    {
        let j = find_byte(allow_text, NEWLINE, i);
        let line = vstd::slice::slice_subrange(allow_text, i, j);
        let ghost pre = index.as_set();
        process_whitelist_line(line, &mut index);
        if j == allow_text.len() {
            i = j;
            proof {
                assert(index.as_set().union(text_closure_from(allow_text@, i as int))
                    =~= text_closure_from(allow_text@, 0));
            }
        } else {
            i = j + 1;
            proof {
                assert(index.as_set().union(text_closure_from(allow_text@, i as int))
                    =~= text_closure_from(allow_text@, 0));
            }
        }
    }
    proof {
        assert(index.as_set() =~= text_closure_from(allow_text@, 0));
    }
    let mut k: usize = 0;
    while k < cnames.len()
        invariant
            k <= cnames@.len(),
            index.wf(),
            index.as_set() =~= text_closure_from(allow_text@, 0).union(
                lines_closure(cnames.deep_view(), k as int),
            ),
        decreases cnames@.len() - k,
    {
        proof {
            assert(cnames.deep_view()[k as int] == cnames@[k as int]@);
        }
        let c = &cnames[k];
        process_whitelist_line(c.as_slice(), &mut index);
        proof {
            assert(index.as_set() =~= text_closure_from(allow_text@, 0).union(
                lines_closure(cnames.deep_view(), k as int + 1),
            ));
        }
        k = k + 1;
    }
    index
}

} // verus!

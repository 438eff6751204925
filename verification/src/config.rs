//! Configuration-directory rules: which directory entries count as list
//! files, block files, or the allow-file. The caller supplies the entry
//! names it found; reading the directory itself is its business.

use vstd::prelude::*;
use vstd::string::StringSliceAdditionalSpecFns;

use crate::scan::bytes_eq;

verus! {

/// Whether an entry name ends in `.txt`.
pub open spec fn has_txt_extension(e: Seq<u8>) -> bool {
    e.len() >= 4 && e.subrange(e.len() - 4, e.len() as int) == (".txt").spec_bytes()
}

/// The entries with a `.txt` extension among the first `k`, in order.
pub open spec fn spec_txt_entries(entries: Seq<Seq<u8>>, k: int) -> Seq<Seq<u8>>
    decreases k,
{
    if k <= 0 {
        Seq::empty()
    } else {
        let rest = spec_txt_entries(entries, k - 1);
        if has_txt_extension(entries[k - 1]) {
            rest.push(entries[k - 1])
        } else {
            rest
        }
    }
}

/// Keeps the entries with a `.txt` extension, in order.
#[verifier::loop_isolation(false)]
fn filter_txt_entries(entries: &Vec<Vec<u8>>) -> (r: Vec<Vec<u8>>)
    ensures
        r.deep_view() == spec_txt_entries(entries.deep_view(), entries@.len() as int),
{
    let mut out: Vec<Vec<u8>> = Vec::new();
    let mut i: usize = 0;
    proof {
        assert(out.deep_view() =~= spec_txt_entries(entries.deep_view(), 0));
    }
    while i < entries.len()
        invariant
            i <= entries@.len(),
            out.deep_view() == spec_txt_entries(entries.deep_view(), i as int),
        decreases entries@.len() - i,
    {
        proof {
            assert(entries.deep_view()[i as int] == entries@[i as int]@);
        }
        let e = &entries[i];
        let ghost pre = out.deep_view();
        if e.len() >= 4 {
            let tail = vstd::slice::slice_subrange(e.as_slice(), e.len() - 4, e.len());
            if bytes_eq(tail, (".txt").as_bytes()) {
                out.push(vstd::slice::slice_to_vec(e.as_slice()));
                proof {
                    assert(out.deep_view() =~= pre.push(entries.deep_view()[i as int]));
                }
            }
        }
        i = i + 1;
    }
    out
}

/// The list-of-lists files among the directory entries: those ending in
/// `.txt`, or nothing when there are none.
pub fn get_lists_files(entries: &Vec<Vec<u8>>) -> (r: Option<Vec<Vec<u8>>>)
    ensures
        match r {
            Some(v) => v.deep_view() == spec_txt_entries(entries.deep_view(), entries@.len() as int)
                && v@.len() > 0,
            None => spec_txt_entries(entries.deep_view(), entries@.len() as int).len() == 0,
        },
{
    let res = filter_txt_entries(entries);
    if res.len() > 0 {
        Some(res)
    } else {
        None
    }
}

/// The block files among the directory entries: those ending in `.txt`, or
/// nothing when there are none.
pub fn get_block_files(entries: &Vec<Vec<u8>>) -> (r: Option<Vec<Vec<u8>>>)
    ensures
        match r {
            Some(v) => v.deep_view() == spec_txt_entries(entries.deep_view(), entries@.len() as int)
                && v@.len() > 0,
            None => spec_txt_entries(entries.deep_view(), entries@.len() as int).len() == 0,
        },
{
    let res = filter_txt_entries(entries);
    if res.len() > 0 {
        Some(res)
    } else {
        None
    }
}

/// The fixed file name of the allow-list in the configuration directory.
pub open spec fn allow_file_name() -> Seq<u8> {
    ("domains.whitelisted").spec_bytes()
}

/// Picks the allow-file from the directory entries: the entry named
/// `domains.whitelisted`, when present.
#[verifier::loop_isolation(false)]
pub fn get_allow_file(entries: &Vec<Vec<u8>>) -> (r: Option<Vec<u8>>)
    ensures
        match r {
            Some(v) => v@ == allow_file_name() && entries.deep_view().contains(allow_file_name()),
            None => !entries.deep_view().contains(allow_file_name()),
        },
{
    let mut i: usize = 0;
    while i < entries.len()
        invariant
            i <= entries@.len(),
            forall|j: int| 0 <= j < i ==> entries.deep_view()[j] != allow_file_name(),
        decreases entries@.len() - i,
    {
        proof {
            assert(entries.deep_view()[i as int] == entries@[i as int]@);
        }
        let e = &entries[i];
        if bytes_eq(e.as_slice(), ("domains.whitelisted").as_bytes()) {
            return Some(vstd::slice::slice_to_vec(e.as_slice()));
        }
        i = i + 1;
    }
    proof {
        assert(!entries.deep_view().contains(allow_file_name()));
    }
    None
}

} // verus!

//! The domain parser: turns one raw text line into a validated, lowercased
//! domain record, or rejects it.
//!
//! A line is stripped of everything from the first `#` on and of trailing
//! whitespace; the last whitespace-delimited token is lowercased and kept if
//! it passes a syntactic host-name check (non-empty labels of at most 63
//! bytes over `a-z 0-9 - _`, at most 253 bytes in all).

use vstd::prelude::*;

use crate::hierarchy::{count_byte, DOT};
use crate::scan::{
    find_byte, find_token_start, find_trimmed_end, first_byte_from, last_space_at_or_before,
    lemma_first_byte_from, lemma_last_space_at_or_before, trimmed_end,
};
use crate::dedup::names_of;

verus! {

/// The comment marker `'#'`.
pub const HASH: u8 = 35;

/// The line-feed byte `'\n'`.
pub const NEWLINE: u8 = 10;

/// Bytes permitted inside a host-name label: `a-z`, `0-9`, `-`, `_`.
pub open spec fn is_host_byte(b: u8) -> bool {
    (97 <= b <= 122) || (48 <= b <= 57) || b == 45 || b == 95
}

/// Runtime counterpart of `is_host_byte`.
fn byte_is_host(b: u8) -> (r: bool)
    ensures
        r == is_host_byte(b),
{
    (97 <= b && b <= 122) || (48 <= b && b <= 57) || b == 45 || b == 95
}

/// Whether a dot occurs in the 64-byte window of `s` that starts at `p`;
/// every such window containing a dot is what bounds each label at 63 bytes.
pub open spec fn dot_in_window(s: Seq<u8>, p: int) -> bool {
    exists|k: int| p <= k <= p + 63 && #[trigger] s[k] == DOT
}

/// A syntactically valid host name: 1 to 253 bytes, labels separated by
/// single dots, no empty label, no label over 63 bytes, only permitted
/// (lowercase) bytes.
pub open spec fn valid_host(s: Seq<u8>) -> bool {
    &&& 1 <= s.len() <= 253
    &&& forall|i: int| 0 <= i < s.len() ==> is_host_byte(#[trigger] s[i]) || s[i] == DOT
    &&& s[0] != DOT
    &&& s[s.len() - 1] != DOT
    &&& forall|i: int| 0 <= i < s.len() - 1 ==> !(#[trigger] s[i] == DOT && s[i + 1] == DOT)
    &&& forall|p: int| 0 <= p && p + 63 < s.len() ==> #[trigger] dot_in_window(s, p)
}

/// Runtime host-name check.
#[verifier::loop_isolation(false)]
pub fn host_ok(s: &[u8]) -> (r: bool)
    ensures
        r == valid_host(s@),
{
    if s.len() == 0 || s.len() > 253 {
        return false;
    }
    // length of the label seen so far; the index just before its first byte
    // is the last dot (or -1).
    let mut label_len: usize = 0;
    let ghost mut last_dot: int = -1;
    let mut i: usize = 0;
    while i < s.len()
        invariant
            0 < s@.len() <= 253,
            i <= s@.len(),
            -1 <= last_dot < i as int,
            label_len == i as int - last_dot - 1,
            label_len <= 63,
            last_dot >= 0 ==> s@[last_dot] == DOT,
            forall|j: int| last_dot < j < i as int ==> s@[j] != DOT,
            forall|j: int| 0 <= j < i as int ==> is_host_byte(#[trigger] s@[j]) || s@[j] == DOT,
            s@.len() > 0 && i > 0 ==> s@[0] != DOT,
            forall|j: int| 0 <= j < i as int - 1 ==> !(#[trigger] s@[j] == DOT && s@[j + 1] == DOT),
            forall|p: int| 0 <= p && p + 63 < i as int ==> #[trigger] dot_in_window(s@, p),
        decreases s@.len() - i,
    {
        let b = s[i];
        if b == DOT {
            if label_len == 0 {
                // leading dot or an empty label
                if i == 0 {
                    assert(!valid_host(s@));
                } else {
                    assert(s@[i as int - 1] == DOT && s@[i as int] == DOT);
                    assert(!valid_host(s@));
                }
                return false;
            }
            proof {
                last_dot = i as int;
            }
            label_len = 0;
        } else if byte_is_host(b) {
            if label_len == 63 {
                // a 64-byte window without a dot starts right after the last dot
                assert(!dot_in_window(s@, last_dot + 1));
                assert(!valid_host(s@));
                return false;
            }
            label_len = label_len + 1;
        } else {
            assert(!(is_host_byte(s@[i as int]) || s@[i as int] == DOT));
            assert(!valid_host(s@));
            return false;
        }
        i = i + 1;
    }
    if label_len == 0 {
        // the name ends with a dot (it is non-empty here)
        assert(s@[s@.len() - 1] == DOT);
        assert(!valid_host(s@));
        return false;
    }
    assert(valid_host(s@)) by {
        assert forall|p: int| 0 <= p && p + 63 < s@.len() implies #[trigger] dot_in_window(
            s@,
            p,
        ) by {
            if p + 63 < s@.len() - 1 {
                // covered by the loop invariant
            } else {
                // the window ends at the last byte; the last label is short,
                // so the last dot lies inside the window
                assert(s@.len() - last_dot - 1 == label_len);
                assert(p <= last_dot <= p + 63);
                assert(s@[last_dot] == DOT);
            }
        }
    }
    true
}

/// Lowercasing of one ASCII byte.
pub open spec fn to_lower_byte(b: u8) -> u8 {
    if 65 <= b <= 90 {
        (b + 32) as u8
    } else {
        b
    }
}

/// Bytewise ASCII lowercasing.
pub open spec fn lower(s: Seq<u8>) -> Seq<u8> {
    Seq::new(s.len(), |i: int| to_lower_byte(s[i]))
}

/// Copies `s` with ASCII uppercase letters lowercased.
#[verifier::loop_isolation(false)]
fn to_lowercase(s: &[u8]) -> (r: Vec<u8>)
    ensures
        r@ == lower(s@),
{
    let mut out: Vec<u8> = Vec::new();
    let mut i: usize = 0;
    while i < s.len()
        invariant
            i <= s@.len(),
            out@ =~= lower(s@).take(i as int),
        decreases s@.len() - i,
    {
        let b = s[i];
        if 65 <= b && b <= 90 {
            out.push(b + 32);
        } else {
            out.push(b);
        }
        i = i + 1;
    }
    proof {
        assert(out@ =~= lower(s@));
    }
    out
}

/// The part of a line before its first `#`.
pub open spec fn spec_clean_line(line: Seq<u8>) -> Seq<u8> {
    line.take(first_byte_from(line, HASH, 0))
}

/// What the domain parser yields for one line: the lowercased last
/// whitespace-delimited token of the comment-stripped line, if it is a valid
/// host name.
pub open spec fn spec_parse_line(line: Seq<u8>) -> Option<Seq<u8>> {
    let c = spec_clean_line(line);
    let e = trimmed_end(c);
    if e == 0 {
        None
    } else {
        let t = lower(c.subrange(last_space_at_or_before(c, e - 1) + 1, e));
        if valid_host(t) {
            Some(t)
        } else {
            None
        }
    }
}

/// A validated domain record: the lowercased name and its specificity, the
/// number of label separators in the name.
pub struct Domain {
    pub name: Vec<u8>,
    pub specificity: usize,
}

impl Domain {
    /// The record's internal invariant.
    pub open spec fn wf(&self) -> bool {
        &&& valid_host(self.name@)
        &&& self.specificity == count_byte(self.name@, DOT)
    }

    /// Parses one line into a domain record; lines with no valid host-name
    /// token yield `None`.
    pub fn new(line: &[u8]) -> (r: Option<Domain>)
        ensures
            match r {
                Some(d) => spec_parse_line(line@) == Some(d.name@) && d.wf(),
                None => spec_parse_line(line@) is None,
            },
    {
        let h = find_byte(line, HASH, 0);
        let cleaned = vstd::slice::slice_subrange(line, 0, h);
        assert(cleaned@ == spec_clean_line(line@));
        let e = find_trimmed_end(cleaned);
        if e == 0 {
            return None;
        }
        let start = find_token_start(cleaned, e);
        proof {
            lemma_last_space_at_or_before(cleaned@, e - 1);
        }
        let token = vstd::slice::slice_subrange(cleaned, start, e);
        let name = to_lowercase(token);
        if host_ok(name.as_slice()) {
            let specificity = crate::hierarchy::count_char_occurences(name.as_slice(), DOT);
            Some(Domain { name, specificity })
        } else {
            None
        }
    }
}

/// The names that the domain parser yields for the lines of `text` that
/// start at `i`, in order.
pub open spec fn spec_domains_from(text: Seq<u8>, i: int) -> Seq<Seq<u8>>
    decreases text.len() - i,
{
    if i < 0 || i >= text.len() {
        Seq::empty()
    } else {
        proof {
            lemma_first_byte_from(text, NEWLINE, i);
        }
        let j = first_byte_from(text, NEWLINE, i);
        let rest = if j >= text.len() {
            Seq::empty()
        } else {
            spec_domains_from(text, j + 1)
        };
        match spec_parse_line(text.subrange(i, j)) {
            Some(n) => seq![n] + rest,
            None => rest,
        }
    }
}

/// The names parsed from every line of `text`, in order.
pub open spec fn spec_domains(text: Seq<u8>) -> Seq<Seq<u8>> {
    spec_domains_from(text, 0)
}

/// Parses every line of a text into domain records; lines with no valid
/// host-name token are dropped.
#[verifier::loop_isolation(false)]
pub fn collect_domains(text: &[u8]) -> (r: Vec<Domain>)
    ensures
        names_of(r@) == spec_domains(text@),
        forall|i: int| 0 <= i < r@.len() ==> (#[trigger] r@[i]).wf(),
{
    let mut out: Vec<Domain> = Vec::new();
    let mut i: usize = 0;
    proof {
        assert(names_of(out@) =~= Seq::<Seq<u8>>::empty());
    }
    while i < text.len()
        invariant
            i <= text@.len(),
            forall|k: int| 0 <= k < out@.len() ==> (#[trigger] out@[k]).wf(),
            spec_domains(text@) == names_of(out@) + spec_domains_from(text@, i as int),
        decreases text@.len() - i,
    {
        let j = find_byte(text, NEWLINE, i);
        let line = vstd::slice::slice_subrange(text, i, j);
        let ghost pre = out@;
        let ghost rest = if j >= text@.len() {
            Seq::<Seq<u8>>::empty()
        } else {
            spec_domains_from(text@, j + 1)
        };
        match Domain::new(line) {
            Some(d) => {
                out.push(d);
                proof {
                    assert(names_of(out@) =~= names_of(pre).push(d.name@));
                    assert(names_of(pre).push(d.name@) + rest =~= names_of(pre) + (seq![d.name@]
                        + rest));
                }
            },
            None => {},
        }
        if j == text.len() {
            i = j;
            proof {
                assert(spec_domains_from(text@, i as int) =~= Seq::<Seq<u8>>::empty());
            }
        } else {
            i = j + 1;
        }
    }
    proof {
        assert(spec_domains_from(text@, i as int) =~= Seq::<Seq<u8>>::empty());
        assert(names_of(out@) + Seq::<Seq<u8>>::empty() =~= names_of(out@));
    }
    out
}

} // verus!

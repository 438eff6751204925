//! List-of-lists handling: extracting the unique URLs of a list file,
//! validating a downloaded body, and reading a refresh URL from a file's
//! first line.

use vstd::prelude::*;
use vstd::string::StringSliceAdditionalSpecFns;

use crate::domain::{spec_clean_line, HASH, NEWLINE};
use crate::name_set::NameSet;
use crate::scan::{
    find_byte, find_nonspace, find_space, find_trimmed_end, find_after_last_byte, first_byte_from,
    first_nonspace_from, first_space_from, last_byte_at_or_before, lemma_first_byte_from,
    lemma_first_nonspace_from, lemma_last_nonspace_at_or_before, trimmed_end, bytes_eq,
};

verus! {

/// The space byte, the separator the host-token split uses.
pub const SPACE: u8 = 32;

/// Whether addr accepts these bytes, decoded as UTF-8, as a DNS name.
pub uninterp spec fn dns_name_ok(b: Seq<u8>) -> bool;

/// Relies on addr::parse_dns_name: whether a token is a well-formed DNS
/// name is a function of its bytes alone (bytes that are not UTF-8 are
/// rejected).
#[verifier::external_body]
fn parses_as_dns_name(b: &[u8]) -> (r: bool)
    ensures
        r == dns_name_ok(b@),
{
    match core::str::from_utf8(b) {
        Ok(s) => addr::parse_dns_name(s).is_ok(),
        Err(_) => false,
    }
}

/// A line's content: comment stripped, whitespace trimmed on both ends,
/// empty when nothing is left.
pub open spec fn spec_line_content(line: Seq<u8>) -> Seq<u8> {
    let c = spec_clean_line(line);
    let e = trimmed_end(c);
    if e == 0 {
        Seq::empty()
    } else {
        c.subrange(first_nonspace_from(c, 0), e)
    }
}

/// Computes `spec_line_content` of one line.
#[verifier::loop_isolation(false)]
fn line_content(line: &[u8]) -> (r: Vec<u8>)
    ensures
        r@ == spec_line_content(line@),
{
    let h = find_byte(line, HASH, 0);
    let cleaned = vstd::slice::slice_subrange(line, 0, h);
    assert(cleaned@ == spec_clean_line(line@));
    let e = find_trimmed_end(cleaned);
    if e == 0 {
        let r: Vec<u8> = Vec::new();
        proof {
            assert(r@ =~= spec_line_content(line@));
        }
        r
    } else {
        let s = find_nonspace(cleaned, 0);
        proof {
            lemma_first_nonspace_from(cleaned@, 0);
            lemma_last_nonspace_at_or_before(cleaned@, cleaned@.len() - 1);
        }
        vstd::slice::slice_to_vec(vstd::slice::slice_subrange(cleaned, s, e))
    }
}

/// Why a list file yields no URLs.
#[derive(Clone, Copy, Debug, PartialEq, Eq)]
pub enum ListError {
    /// No line of the file held a URL after comment stripping.
    NoUrls,
}

impl ListError {
    /// A fixed description of the error.
    pub fn message(&self) -> (r: &'static str)
        ensures
            r@ == ("No urls found in file")@,
    {
        "No urls found in file"
    }
}

/// The distinct non-empty line contents of `text` from position `i` on,
/// appended to those already in `acc`, in first-occurrence order.
pub open spec fn spec_urls_from(text: Seq<u8>, i: int, acc: Seq<Seq<u8>>) -> Seq<Seq<u8>>
    decreases text.len() - i,
{
    if i < 0 || i >= text.len() {
        acc
    } else {
        proof {
            lemma_first_byte_from(text, NEWLINE, i);
        }
        let j = first_byte_from(text, NEWLINE, i);
        let t = spec_line_content(text.subrange(i, j));
        let acc2 = if t.len() > 0 && !acc.contains(t) {
            acc.push(t)
        } else {
            acc
        };
        if j >= text.len() {
            acc2
        } else {
            spec_urls_from(text, j + 1, acc2)
        }
    }
}

/// The unique URLs of one list file, in first-occurrence order.
pub open spec fn spec_urls(text: Seq<u8>) -> Seq<Seq<u8>> {
    spec_urls_from(text, 0, Seq::empty())
}

/// Extracts the unique URLs of a list-of-lists file body: one URL per line,
/// comments stripped, duplicates dropped. A file with no URLs is an error,
/// and a fatal one for the run.
#[verifier::loop_isolation(false)]
pub fn get_url_list(content: &[u8]) -> (r: Result<NameSet, ListError>)
    ensures
        match r {
            Ok(urls) => urls.wf() && urls@ == spec_urls(content@) && urls@.len() > 0,
            Err(e) => spec_urls(content@).len() == 0 && e == ListError::NoUrls,
        },
{
    let mut urls = NameSet::new();
    let mut i: usize = 0;
    proof {
        assert(urls@ =~= Seq::<Seq<u8>>::empty());
    }
    while i < content.len()
        invariant
            i <= content@.len(),
            urls.wf(),
            spec_urls(content@) == if i as int >= content@.len() {
                urls@
            } else {
                spec_urls_from(content@, i as int, urls@)
            },
        decreases content@.len() - i,
    {
        let j = find_byte(content, NEWLINE, i);
        let line = vstd::slice::slice_subrange(content, i, j);
        let t = line_content(line);
        if t.len() > 0 {
            urls.insert(t);
        }
        if j == content.len() {
            i = j;
        } else {
            i = j + 1;
        }
    }
    if urls.len() > 0 {
        Ok(urls)
    } else {
        proof {
            assert(urls@.len() == 0);
        }
        Err(ListError::NoUrls)
    }
}

/// Whether one line of a downloaded body holds a syntactically valid host
/// name: its content's last space-separated token passes the DNS-name check.
pub open spec fn spec_line_is_valid(line: Seq<u8>) -> bool {
    let c = spec_clean_line(line);
    let e = trimmed_end(c);
    e > 0 && dns_name_ok(c.subrange(last_byte_at_or_before(c, SPACE, e - 1) + 1, e))
}

/// The number of valid lines of `text` from position `i` on.
pub open spec fn spec_valid_lines_from(text: Seq<u8>, i: int) -> nat
    decreases text.len() - i,
{
    if i < 0 || i >= text.len() {
        0
    } else {
        proof {
            lemma_first_byte_from(text, NEWLINE, i);
        }
        let j = first_byte_from(text, NEWLINE, i);
        let here: nat = if spec_line_is_valid(text.subrange(i, j)) {
            1
        } else {
            0
        };
        here + if j >= text.len() {
            0nat
        } else {
            spec_valid_lines_from(text, j + 1)
        }
    }
}

/// Counts the lines of a downloaded body whose last space-separated token is
/// a well-formed DNS name; zero marks the body as invalid.
#[verifier::loop_isolation(false)]
pub fn number_of_valid_lines(content: &[u8]) -> (r: usize)
    ensures
        r == spec_valid_lines_from(content@, 0),
{
    let mut n: usize = 0;
    let mut i: usize = 0;
    while i < content.len()
        invariant
            i <= content@.len(),
            n <= i,
            spec_valid_lines_from(content@, 0) == n + if i as int >= content@.len() {
                0nat
            } else {
                spec_valid_lines_from(content@, i as int)
            },
        decreases content@.len() - i,
    {
        let j = find_byte(content, NEWLINE, i);
        let line = vstd::slice::slice_subrange(content, i, j);
        let h = find_byte(line, HASH, 0);
        let cleaned = vstd::slice::slice_subrange(line, 0, h);
        assert(cleaned@ == spec_clean_line(line@));
        let e = find_trimmed_end(cleaned);
        if e > 0 {
            let s = find_after_last_byte(cleaned, SPACE, e);
            let token = vstd::slice::slice_subrange(cleaned, s, e);
            let valid = parses_as_dns_name(token);
            assert(valid == spec_line_is_valid(line@));
            if valid {
                n = n + 1;
            }
        } else {
            assert(!spec_line_is_valid(line@));
        }
        proof {
            assert(spec_valid_lines_from(content@, i as int) == (if spec_line_is_valid(line@) {
                1nat
            } else {
                0nat
            }) + (if j as int >= content@.len() {
                0nat
            } else {
                spec_valid_lines_from(content@, j as int + 1)
            }));
        }
        if j == content.len() {
            i = j;
        } else {
            i = j + 1;
        }
    }
    n
}

/// Whether a downloaded body holds any syntactically valid host-name line;
/// a body without one is discarded.
pub fn has_valid_content(content: &[u8]) -> (r: bool)
    ensures
        r == (spec_valid_lines_from(content@, 0) > 0),
{
    number_of_valid_lines(content) > 0
}

/// What a refresh header yields: the first whitespace-separated token after
/// the marker on the (end-trimmed) first line, when the body starts with the
/// marker.
pub open spec fn spec_refresh_url(content: Seq<u8>) -> Option<Seq<u8>> {
    let marker = ("#!dns-block ").spec_bytes();
    if content.len() >= marker.len() && content.take(marker.len() as int) == marker {
        let j = first_byte_from(content, NEWLINE, 0);
        let e = trimmed_end(content.take(j));
        if e <= marker.len() {
            None
        } else {
            let s = first_nonspace_from(content, marker.len() as int);
            if s >= e {
                None
            } else {
                let t = first_space_from(content, s);
                Some(content.subrange(s, if t < e {
                    t
                } else {
                    e
                }))
            }
        }
    } else {
        None
    }
}

/// Reads the refresh URL of a list file: when its body starts with the
/// marker `#!dns-block `, the rest of the first line names a URL to fetch a
/// fresh copy from.
#[verifier::loop_isolation(false)]
pub fn extract_dns_block_url(content: &[u8]) -> (r: Option<Vec<u8>>)
    ensures
        match r {
            Some(u) => spec_refresh_url(content@) == Some(u@),
            None => spec_refresh_url(content@) is None,
        },
{
    let marker = "#!dns-block ";
    let mlen = marker.as_bytes().len();
    if content.len() < mlen {
        return None;
    }
    let head = vstd::slice::slice_subrange(content, 0, mlen);
    proof {
        assert(head@ =~= content@.take(mlen as int));
    }
    if !bytes_eq(head, marker.as_bytes()) {
        return None;
    }
    let j = find_byte(content, NEWLINE, 0);
    let first_line = vstd::slice::slice_subrange(content, 0, j);
    proof {
        assert(first_line@ =~= content@.take(j as int));
    }
    let e = find_trimmed_end(first_line);
    if e <= mlen {
        return None;
    }
    let s = find_nonspace(content, mlen);
    proof {
        lemma_first_nonspace_from(content@, mlen as int);
    }
    if s >= e {
        return None;
    }
    let t = find_space(content, s);
    let stop = if t < e {
        t
    } else {
        e
    };
    Some(vstd::slice::slice_to_vec(vstd::slice::slice_subrange(content, s, stop)))
}

} // verus!

//! Serialization of the Block Indices: the plain list of blocked names, and
//! the response-policy zone format that maps each blocked name and its
//! wildcard to a null target.

use vstd::prelude::*;
use vstd::string::StrSliceExecFns;
use vstd::string::StringSliceAdditionalSpecFns;

use crate::name_set::NameSet;

verus! {

/// Appends a byte slice to a buffer.
#[verifier::loop_isolation(false)]
fn append_bytes(out: &mut Vec<u8>, s: &[u8])
    ensures
        final(out)@ == old(out)@ + s@,
{
    let mut i: usize = 0;
    while i < s.len()
        invariant
            i <= s@.len(),
            out@ =~= old(out)@ + s@.take(i as int),
        decreases s@.len() - i,
    {
        out.push(s[i]);
        i = i + 1;
    }
    proof {
        assert(old(out)@ + s@.take(s@.len() as int) =~= old(out)@ + s@);
    }
}

/// The plain serialization of the first `k` entries: each name followed by a
/// line feed.
pub open spec fn render_names(names: Seq<Seq<u8>>, k: int) -> Seq<u8>
    decreases k,
{
    if k <= 0 {
        Seq::empty()
    } else {
        render_names(names, k - 1) + names[k - 1] + seq![10u8]
    }
}

/// Serializes one index as a plain list, one name per line.
#[verifier::loop_isolation(false)]
fn render_list(out: &mut Vec<u8>, index: &NameSet)
    ensures
        final(out)@ == old(out)@ + render_names(index@, index@.len() as int),
{
    let mut i: usize = 0;
    proof {
        assert(out@ =~= old(out)@ + render_names(index@, 0));
    }
    while i < index.len()
        invariant
            i <= index@.len(),
            out@ == old(out)@ + render_names(index@, i as int),
        decreases index@.len() - i,
    {
        let entry = index.get(i);
        append_bytes(out, entry.as_slice());
        out.push(10);
        proof {
            assert(out@ =~= old(out)@ + render_names(index@, i as int + 1));
        }
        i = i + 1;
    }
}

/// The plain-list output: every entry of both Block Indices, one name per
/// line, newline-terminated.
pub fn render_plain(index_com: &NameSet, index_net: &NameSet) -> (r: Vec<u8>)
    ensures
        r@ == render_names(index_com@, index_com@.len() as int) + render_names(
            index_net@,
            index_net@.len() as int,
        ),
{
    let mut out: Vec<u8> = Vec::new();
    proof {
        assert(out@ =~= Seq::<u8>::empty());
    }
    render_list(&mut out, index_com);
    render_list(&mut out, index_net);
    proof {
        assert(Seq::<u8>::empty() + render_names(index_com@, index_com@.len() as int)
            + render_names(index_net@, index_net@.len() as int) =~= render_names(
            index_com@,
            index_com@.len() as int,
        ) + render_names(index_net@, index_net@.len() as int));
    }
    out
}

/// The fixed preamble of the zone output: SOA and NS records for a null
/// zone (serial 2, refresh 3 hours, retry 1 hour, expiry 1 week, minimum
/// 1 hour, name server `localhost.`).
pub open spec fn zone_preamble() -> Seq<u8> {
    "$TTL 60\n@   IN    SOA  localhost. root.localhost.  (\n        2   ; serial \n        3H  ; refresh \n        1H  ; retry \n        1W  ; expiry \n        1H) ; minimum \n    IN    NS    localhost.\n".spec_bytes()
}

/// The record tail mapping a name to the null target.
pub open spec fn cname_tail() -> Seq<u8> {
    " CNAME .\n".spec_bytes()
}

/// The wildcard prefix.
pub open spec fn wildcard_prefix() -> Seq<u8> {
    "*.".spec_bytes()
}

/// The zone records for the first `k` entries: for each name, the bare name
/// and its wildcard both mapped to the null target.
pub open spec fn zone_records(names: Seq<Seq<u8>>, k: int) -> Seq<u8>
    decreases k,
{
    if k <= 0 {
        Seq::empty()
    } else {
        zone_records(names, k - 1) + names[k - 1] + cname_tail() + wildcard_prefix() + names[k - 1]
            + cname_tail()
    }
}

/// Serializes one index in zone format.
#[verifier::loop_isolation(false)]
fn render_zone_records(out: &mut Vec<u8>, index: &NameSet)
    ensures
        final(out)@ == old(out)@ + zone_records(index@, index@.len() as int),
{
    let mut i: usize = 0;
    proof {
        assert(out@ =~= old(out)@ + zone_records(index@, 0));
    }
    while i < index.len()
        invariant
            i <= index@.len(),
            out@ == old(out)@ + zone_records(index@, i as int),
        decreases index@.len() - i,
    {
        let entry = index.get(i);
        append_bytes(out, entry.as_slice());
        append_bytes(out, (" CNAME .\n").as_bytes());
        append_bytes(out, ("*.").as_bytes());
        append_bytes(out, entry.as_slice());
        append_bytes(out, (" CNAME .\n").as_bytes());
        proof {
            assert(out@ =~= old(out)@ + zone_records(index@, i as int + 1));
        }
        i = i + 1;
    }
}

/// The zone-format output: the fixed preamble, then two records for every
/// blocked name of both indices, mapping the name and its wildcard to the
/// null target.
pub fn render_zone(index_com: &NameSet, index_net: &NameSet) -> (r: Vec<u8>)
    ensures
        r@ == zone_preamble() + zone_records(index_com@, index_com@.len() as int) + zone_records(
            index_net@,
            index_net@.len() as int,
        ),
{
    let preamble = "$TTL 60\n@   IN    SOA  localhost. root.localhost.  (\n        2   ; serial \n        3H  ; refresh \n        1H  ; retry \n        1W  ; expiry \n        1H) ; minimum \n    IN    NS    localhost.\n";
    let mut out: Vec<u8> = preamble.as_bytes_vec();
    proof {
        assert(out@ =~= zone_preamble());
    }
    render_zone_records(&mut out, index_com);
    render_zone_records(&mut out, index_net);
    proof {
        assert(zone_preamble() + zone_records(index_com@, index_com@.len() as int) + zone_records(
            index_net@,
            index_net@.len() as int,
        ) =~= out@);
    }
    out
}

} // verus!

use dns_block::compile::{compile, CompileResult};
use dns_block::name_set::NameSet;
use dns_block::statistics::Statistics;

fn run(block: &[&[u8]], remote: &[&[u8]], allow: &[u8], cnames: &[&[u8]]) -> CompileResult {
    let block: Vec<Vec<u8>> = block.iter().map(|t| t.to_vec()).collect();
    let remote: Vec<Vec<u8>> = remote.iter().map(|t| t.to_vec()).collect();
    let cnames: Vec<Vec<u8>> = cnames.iter().map(|t| t.to_vec()).collect();
    compile(&block, &remote, allow, &cnames)
}

fn entries(index: &NameSet) -> Vec<Vec<u8>> {
    let mut out = Vec::new();
    let mut i = 0;
    while i < index.len() {
        out.push(index.get(i).clone());
        i += 1;
    }
    out
}

#[test]
fn parent_domain_shadows_subdomain() {
    // the less specific name is processed first and makes the subdomain
    // parent-redundant
    let r = run(&[b"a.example.com\nexample.com\n"], &[], b"", &[]);
    assert_eq!(entries(&r.index_com), vec![b"example.com".to_vec()]);
    assert_eq!(r.index_net.len(), 0);
    assert_eq!(r.stats_com.blocked, 1);
    assert_eq!(r.stats_com.parent, 1);
    assert_eq!(r.stats_com.duplicate, 0);
    assert_eq!(r.stats_com.allowed, 0);
}

#[test]
fn allow_list_wins_over_block_list() {
    let r = run(&[b"example.com\n"], &[], b"example.com\n", &[]);
    assert_eq!(r.index_com.len(), 0);
    assert_eq!(r.index_net.len(), 0);
    assert_eq!(r.stats_com.allowed, 1);
    assert_eq!(r.stats_com.distinct_allowed, 1);
    assert_eq!(r.stats_com.blocked, 0);
}

#[test]
fn allow_closure_shields_blocked_ancestors() {
    // allowing a subdomain protects its ancestors too, so neither name is
    // blocked and no redundancy arises
    let r = run(&[b"example.com\nsub.example.com\n"], &[], b"sub.example.com\n", &[]);
    assert_eq!(r.index_com.len(), 0);
    assert_eq!(r.stats_com.parent, 0);
    assert_eq!(r.stats_com.allowed, 2);
    assert_eq!(r.stats_com.distinct_allowed, 2);
}

#[test]
fn statistics_sum_to_parsed_domains() {
    let text: &[u8] = b"example.com\nexample.com\nfoo.example.com\nbar.net\nbar.net\n";
    let r = run(&[text], &[], b"bar.net\n", &[]);
    // com partition: blocked example.com, duplicate example.com,
    // parent-redundant foo.example.com
    assert_eq!(r.stats_com.blocked, 1);
    assert_eq!(r.stats_com.duplicate, 1);
    assert_eq!(r.stats_com.parent, 1);
    // net partition: bar.net allowed twice, one distinct name
    assert_eq!(r.stats_net.allowed, 2);
    assert_eq!(r.stats_net.distinct_allowed, 1);
    let total = Statistics::aggregate(&r.stats_com, &r.stats_net);
    assert_eq!(
        total.blocked + total.duplicate + total.parent + total.allowed,
        5
    );
    assert!(total.distinct_allowed <= total.allowed);
}

#[test]
fn aggregate_is_commutative() {
    let r = run(
        &[b"example.com\nfoo.example.com\nbar.net\n"],
        &[],
        b"bar.net\n",
        &[],
    );
    let ab = Statistics::aggregate(&r.stats_com, &r.stats_net);
    let ba = Statistics::aggregate(&r.stats_net, &r.stats_com);
    assert_eq!(ab.blocked, ba.blocked);
    assert_eq!(ab.duplicate, ba.duplicate);
    assert_eq!(ab.parent, ba.parent);
    assert_eq!(ab.allowed, ba.allowed);
    assert_eq!(ab.distinct_allowed, ba.distinct_allowed);
}

#[test]
fn try_aggregate_reports_overflow() {
    let mut a = Statistics::new();
    let b = Statistics::new();
    a.blocked = u64::MAX;
    assert!(Statistics::try_aggregate(&a, &b).is_some());
    let mut c = Statistics::new();
    c.blocked = 1;
    assert!(Statistics::try_aggregate(&a, &c).is_none());
}

#[test]
fn compiling_twice_gives_identical_indices() {
    let block: &[&[u8]] = &[b"a.example.com\nexample.com\nbar.net\n", b"x.y.z.dev\n"];
    let allow: &[u8] = b"bar.net\n";
    let r1 = run(block, &[b"cdn.ads.net\n"], allow, &[b"alias.host.org"]);
    let r2 = run(block, &[b"cdn.ads.net\n"], allow, &[b"alias.host.org"]);
    assert_eq!(entries(&r1.index_com), entries(&r2.index_com));
    assert_eq!(entries(&r1.index_net), entries(&r2.index_net));
}

#[test]
fn allow_closure_covers_ancestors() {
    // allowing a deep name protects its ancestor suffixes as well
    let r = run(&[b"allowed.example.com\n"], &[], b"deep.sub.allowed.example.com\n", &[]);
    assert_eq!(r.index_com.len(), 0);
    assert_eq!(r.stats_com.allowed, 1);
}

#[test]
fn alias_names_join_the_closure() {
    // a resolved alias and its ancestors must never be blocked
    let r = run(
        &[b"tracker.net\ncdn.tracker.net\n"],
        &[],
        b"",
        &[b"cdn.tracker.net"],
    );
    assert_eq!(r.index_net.len(), 0);
    assert_eq!(r.stats_net.allowed, 2);
    assert_eq!(r.stats_net.distinct_allowed, 2);
}

#[test]
fn remote_lists_join_the_candidates() {
    let r = run(&[], &[b"remote.example.com\n"], b"", &[]);
    assert!(r.index_com.contains(b"remote.example.com"));
}

#[test]
fn no_redundant_entries_survive() {
    // whatever the input order, no entry's ancestor is also an entry
    let text: &[u8] = b"x.deep.example.com\ndeep.example.com\nexample.com\nother.org\nsub.other.org\n";
    let r = run(&[text], &[], b"", &[]);
    for index in [&r.index_com, &r.index_net] {
        for e in entries(index) {
            let mut p = 0;
            while p < e.len() {
                if e[p] == b'.' {
                    let suffix = &e[p + 1..];
                    if suffix.contains(&b'.') {
                        assert!(!index.contains(suffix));
                    }
                }
                p += 1;
            }
        }
    }
    assert!(r.index_com.contains(b"example.com"));
    assert!(!r.index_com.contains(b"deep.example.com"));
    assert!(r.index_net.contains(b"other.org"));
    assert!(!r.index_net.contains(b"sub.other.org"));
}

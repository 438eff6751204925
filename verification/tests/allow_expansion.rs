use dns_block::allowlist::expand_whitelist;
use dns_block::dedup::{process_baddies, Partition};
use dns_block::domain::collect_domains;
use dns_block::name_set::NameSet;
use dns_block::sorting::sort_by_specificity;

#[test]
fn closure_holds_names_aliases_and_ancestors() {
    let cnames = vec![b"edge.cdn.provider.net".to_vec()];
    let allow = expand_whitelist(b"good.shop.example.com # keep\n", &cnames);
    for name in [
        b"good.shop.example.com".as_slice(),
        b"shop.example.com".as_slice(),
        b"example.com".as_slice(),
        b"edge.cdn.provider.net".as_slice(),
        b"cdn.provider.net".as_slice(),
        b"provider.net".as_slice(),
    ] {
        assert!(allow.contains(name));
    }
    assert!(!allow.contains(b"com"));
    assert!(!allow.contains(b"net"));
    assert!(!allow.contains(b"other.example.com"));
}

#[test]
fn empty_allow_file_gives_empty_closure() {
    let allow = expand_whitelist(b"# comments only\n", &Vec::new());
    assert_eq!(allow.len(), 0);
}

#[test]
fn partitions_are_disjoint_and_complete() {
    let text = b"one.example.com\ntwo.example.net\nthree.telecom\n";
    let sorted = sort_by_specificity(collect_domains(text));
    let allow = NameSet::new();
    let (com, stats_com) = process_baddies(&sorted, &allow, Partition::Com);
    let (net, stats_net) = process_baddies(&sorted, &allow, Partition::Other);
    // names ending in the text `com` go to the first partition, all others
    // to the second
    assert!(com.contains(b"one.example.com"));
    assert!(com.contains(b"three.telecom"));
    assert!(net.contains(b"two.example.net"));
    assert_eq!(com.len() + net.len(), 3);
    assert_eq!(stats_com.blocked, 2);
    assert_eq!(stats_net.blocked, 1);
}

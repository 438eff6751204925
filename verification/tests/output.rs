use dns_block::compile::compile;
use dns_block::output::{render_plain, render_zone};

const PREAMBLE: &str = "$TTL 60\n@   IN    SOA  localhost. root.localhost.  (\n        2   ; serial \n        3H  ; refresh \n        1H  ; retry \n        1W  ; expiry \n        1H) ; minimum \n    IN    NS    localhost.\n";

#[test]
fn zone_output_for_one_blocked_name() {
    let block = vec![b"bad.test\n".to_vec()];
    let r = compile(&block, &Vec::new(), b"", &Vec::new());
    assert_eq!(r.index_net.len(), 1);
    let out = String::from_utf8(render_zone(&r.index_com, &r.index_net)).unwrap();
    assert!(out.starts_with(PREAMBLE));
    let records: Vec<&str> = out[PREAMBLE.len()..].lines().collect();
    assert_eq!(records.len(), 2);
    assert!(records.contains(&"bad.test CNAME ."));
    assert!(records.contains(&"*.bad.test CNAME ."));
}

#[test]
fn zone_output_lists_each_blocked_name_twice() {
    let block = vec![b"one.example.com\ntwo.example.net\n".to_vec()];
    let r = compile(&block, &Vec::new(), b"", &Vec::new());
    let out = String::from_utf8(render_zone(&r.index_com, &r.index_net)).unwrap();
    let records: Vec<&str> = out[PREAMBLE.len()..].lines().collect();
    assert_eq!(records.len(), 4);
    assert!(records.contains(&"one.example.com CNAME ."));
    assert!(records.contains(&"*.one.example.com CNAME ."));
    assert!(records.contains(&"two.example.net CNAME ."));
    assert!(records.contains(&"*.two.example.net CNAME ."));
}

#[test]
fn plain_output_holds_every_entry_once() {
    let block = vec![b"one.example.com\ntwo.example.net\none.example.com\n".to_vec()];
    let r = compile(&block, &Vec::new(), b"", &Vec::new());
    let out = String::from_utf8(render_plain(&r.index_com, &r.index_net)).unwrap();
    let mut lines: Vec<&str> = out.lines().collect();
    lines.sort();
    assert_eq!(lines, vec!["one.example.com", "two.example.net"]);
    assert!(out.ends_with('\n'));
}

#[test]
fn plain_output_of_empty_indices_is_empty() {
    let r = compile(&Vec::new(), &Vec::new(), b"", &Vec::new());
    let out = render_plain(&r.index_com, &r.index_net);
    assert!(out.is_empty());
}

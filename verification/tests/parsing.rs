use dns_block::domain::Domain;
use dns_block::hierarchy::{count_char_occurences, sub_domain_iterator};

#[test]
fn parse_line_strips_comment() {
    let d = Domain::new(b"ads.example.com # comment").unwrap();
    assert_eq!(d.name, b"ads.example.com".to_vec());
    assert_eq!(d.specificity, 2);
}

#[test]
fn parse_comment_only_line_yields_nothing() {
    assert!(Domain::new(b"# nothing but a comment").is_none());
}

#[test]
fn parse_whitespace_line_yields_nothing() {
    assert!(Domain::new(b"   \t  ").is_none());
    assert!(Domain::new(b"").is_none());
}

#[test]
fn parse_takes_last_token_of_hosts_line() {
    let d = Domain::new(b"0.0.0.0 ads.example.com").unwrap();
    assert_eq!(d.name, b"ads.example.com".to_vec());
}

#[test]
fn parse_lowercases_the_name() {
    let d = Domain::new(b"ADS.Example.COM").unwrap();
    assert_eq!(d.name, b"ads.example.com".to_vec());
}

#[test]
fn parse_rejects_forbidden_bytes() {
    assert!(Domain::new(b"bad^domain.com").is_none());
    assert!(Domain::new(b"bad*.example.com").is_none());
}

#[test]
fn parse_accepts_digits_hyphen_underscore() {
    let d = Domain::new(b"_dmarc.my-site1.example.com").unwrap();
    assert_eq!(d.name, b"_dmarc.my-site1.example.com".to_vec());
    assert_eq!(d.specificity, 3);
}

#[test]
fn parse_rejects_empty_labels() {
    assert!(Domain::new(b"a..com").is_none());
    assert!(Domain::new(b".com").is_none());
    assert!(Domain::new(b"com.").is_none());
}

#[test]
fn parse_label_length_bound() {
    let mut long = vec![b'a'; 63];
    long.extend_from_slice(b".com");
    assert!(Domain::new(&long).is_some());
    let mut too_long = vec![b'a'; 64];
    too_long.extend_from_slice(b".com");
    assert!(Domain::new(&too_long).is_none());
}

#[test]
fn parse_total_length_bound() {
    // 63 + 1 + 63 + 1 + 63 + 1 + 61 = 253 bytes
    let mut name = Vec::new();
    name.extend_from_slice(&vec![b'a'; 63]);
    name.push(b'.');
    name.extend_from_slice(&vec![b'b'; 63]);
    name.push(b'.');
    name.extend_from_slice(&vec![b'c'; 63]);
    name.push(b'.');
    name.extend_from_slice(&vec![b'd'; 61]);
    assert_eq!(name.len(), 253);
    assert!(Domain::new(&name).is_some());
    name.push(b'd');
    assert!(Domain::new(&name).is_none());
}

#[test]
fn count_char_occurences_counts_bytes() {
    assert_eq!(count_char_occurences(b"a.b.c.d", b'.'), 3);
    assert_eq!(count_char_occurences(b"one\ntwo\nthree\n", b'\n'), 3);
    assert_eq!(count_char_occurences(b"", b'.'), 0);
}

#[test]
fn sub_domain_iterator_yields_ancestors() {
    let anc = sub_domain_iterator(b"a.b.c.example.com", 1);
    assert_eq!(anc.len(), 3);
    assert_eq!(anc[0], b"b.c.example.com".to_vec());
    assert_eq!(anc[1], b"c.example.com".to_vec());
    assert_eq!(anc[2], b"example.com".to_vec());
}

#[test]
fn sub_domain_iterator_stops_at_two_labels() {
    let anc = sub_domain_iterator(b"example.com", 1);
    assert_eq!(anc.len(), 0);
}

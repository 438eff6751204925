use dns_block::lists::{get_url_list, has_valid_content, number_of_valid_lines, ListError};

#[test]
fn extract_dns_block_url() {
    let content = "#!dns-block https://v.firebog.net/hosts/lists.php?type=nocross";
    assert_eq!(
        Some(b"https://v.firebog.net/hosts/lists.php?type=nocross".to_vec()),
        dns_block::lists::extract_dns_block_url(content.as_bytes())
    );
}

#[test]
fn extract_refresh_url_ignores_trailing_words() {
    let content = b"#!dns-block https://lists.example.org/all.txt refreshed weekly\nrest\n";
    assert_eq!(
        dns_block::lists::extract_dns_block_url(content),
        Some(b"https://lists.example.org/all.txt".to_vec())
    );
}

#[test]
fn extract_refresh_url_requires_marker() {
    assert_eq!(dns_block::lists::extract_dns_block_url(b"# plain comment\nhttp://a\n"), None);
    assert_eq!(dns_block::lists::extract_dns_block_url(b""), None);
    assert_eq!(dns_block::lists::extract_dns_block_url(b"#!dns-block \n"), None);
}

#[test]
fn url_list_drops_comments_and_duplicates() {
    let content = b"http://a.example/list # main\n# a comment line\nhttp://a.example/list\n  http://b.example/list  \n";
    let urls = match get_url_list(content) {
        Ok(u) => u,
        Err(_) => panic!("the file holds URLs"),
    };
    assert_eq!(urls.len(), 2);
    assert!(urls.contains(b"http://a.example/list"));
    assert!(urls.contains(b"http://b.example/list"));
}

#[test]
fn url_list_without_urls_is_an_error() {
    match get_url_list(b"# nothing\n\n   \n") {
        Ok(_) => panic!("a file without URLs must be rejected"),
        Err(err) => {
            assert_eq!(err, ListError::NoUrls);
            assert_eq!(err.message(), "No urls found in file");
        },
    }
}

#[test]
fn valid_lines_are_counted_through_the_dns_check() {
    // the DNS-name check takes any label bytes but rejects empty labels
    let content = b"example.com\n0.0.0.0 ads.example.com\nbroken..name\n# comment\n";
    assert_eq!(number_of_valid_lines(content), 2);
    assert!(has_valid_content(content));
}

#[test]
fn body_without_host_lines_is_invalid() {
    let content = b"# only comments\ntrailing..dots.\n";
    assert_eq!(number_of_valid_lines(content), 0);
    assert!(!has_valid_content(content));
}

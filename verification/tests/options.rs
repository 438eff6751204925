use dns_block::cli::{Args, Commands};
use dns_block::config::{get_allow_file, get_block_files, get_lists_files};
use dns_block::filter_cli::{validate_ipv4_prefix, PrefixError};
use dns_block::man::ManExample;

fn names(v: &[&str]) -> Vec<Vec<u8>> {
    v.iter().map(|s| s.as_bytes().to_vec()).collect()
}

#[test]
fn lists_files_keeps_txt_entries() {
    let entries = names(&["first.txt", "notes.conf", "second.txt"]);
    let picked = get_lists_files(&entries).unwrap();
    assert_eq!(picked, names(&["first.txt", "second.txt"]));
}

#[test]
fn lists_files_empty_directory_yields_nothing() {
    assert!(get_lists_files(&names(&["readme.md"])).is_none());
    assert!(get_block_files(&Vec::new()).is_none());
}

#[test]
fn block_files_keeps_txt_entries() {
    let entries = names(&["hosts_blocked.txt", "backup.bak"]);
    let picked = get_block_files(&entries).unwrap();
    assert_eq!(picked, names(&["hosts_blocked.txt"]));
}

#[test]
fn allow_file_is_found_by_name() {
    let entries = names(&["lists_of_lists.d", "domains.whitelisted"]);
    assert_eq!(
        get_allow_file(&entries),
        Some(b"domains.whitelisted".to_vec())
    );
    assert_eq!(get_allow_file(&names(&["other.txt"])), None);
}

#[test]
fn prefix_with_three_numbers_passes() {
    assert_eq!(validate_ipv4_prefix(b"10,0,0"), Ok(b"10,0,0".to_vec()));
    assert_eq!(validate_ipv4_prefix(b"192,168,1"), Ok(b"192,168,1".to_vec()));
}

#[test]
fn prefix_part_count_is_checked() {
    assert_eq!(validate_ipv4_prefix(b"10,0"), Err(PrefixError::Malformed));
    assert_eq!(validate_ipv4_prefix(b"10,0,0,1"), Err(PrefixError::Malformed));
    assert_eq!(validate_ipv4_prefix(b"10.0.0"), Err(PrefixError::Malformed));
    assert_eq!(validate_ipv4_prefix(b""), Err(PrefixError::Malformed));
}

#[test]
fn prefix_parts_must_be_octets() {
    assert_eq!(validate_ipv4_prefix(b"10,,0"), Err(PrefixError::Malformed));
    assert_eq!(validate_ipv4_prefix(b"10,abc,0"), Err(PrefixError::Malformed));
    assert_eq!(validate_ipv4_prefix(b"10,256,0"), Err(PrefixError::Malformed));
    assert_eq!(validate_ipv4_prefix(b"10,-1,0"), Err(PrefixError::Malformed));
}

#[test]
fn prefix_zero_rules() {
    assert_eq!(validate_ipv4_prefix(b"10,01,0"), Err(PrefixError::ZeroStart));
    assert_eq!(validate_ipv4_prefix(b"0,1,2"), Err(PrefixError::LeadingZero));
    assert_eq!(validate_ipv4_prefix(b"10,0,0"), Ok(b"10,0,0".to_vec()));
    assert_eq!(
        validate_ipv4_prefix(b"10,01,0").unwrap_err().message(),
        "Numbers can not start with zero"
    );
}

#[test]
fn option_records_carry_their_fields() {
    let args = Args {
        debug: 2,
        timing: false,
        lists_file: Some(vec!["lists.txt".to_string()]),
        block_file: None,
        allow_file: Some("domains.whitelisted".to_string()),
        command: Commands::Pack { bind: true, output_file: "rpz.db".to_string() },
    };
    assert_eq!(args.debug, 2);
    match args.command {
        Commands::Pack { bind, output_file } => {
            assert!(bind);
            assert_eq!(output_file, "rpz.db");
        },
        Commands::Pipe { .. } => unreachable!(),
    }
    let fetch = dns_block::fetch_cli::Args {
        debug: 0,
        lists_file: vec!["urls.txt".to_string()],
        output: "concatenated.list".to_string(),
        max_retries: 3,
    };
    assert_eq!(fetch.max_retries, 3);
    let filter = dns_block::filter_cli::Args {
        debug: 0,
        subnet_prefix: "10,0,0".to_string(),
        mapping_file_dir: ".".to_string(),
    };
    assert_eq!(filter.subnet_prefix, "10,0,0");
    let example = ManExample {
        title: "Create the rpz.db file:",
        example: "dns-block -dd pack -b rpz.db",
    };
    assert_eq!(example.title.len() > 0, true);
    assert_eq!(example.example.contains("pack"), true);
}

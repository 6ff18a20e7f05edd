use owl::config::Config;
use owl::dotfiles::{
    analyze_dotfiles, classify_mapping, dirs_in_sync, get_dotfile_mappings,
    has_actionable_dotfiles, record_copy_result, sha256_hex, DirFile, DotfileAction,
    DotfileStatus, MappingFacts, PathState,
};

fn file(mtime: u64, bytes: &[u8]) -> PathState {
    PathState::File { mtime, content: bytes.to_vec() }
}

#[test]
fn test_classify_identical_bytes_up_to_date() {
    let (status, _reason) = classify_mapping(&file(1, b"same"), &file(2, b"same"));
    assert_eq!(status, DotfileStatus::UpToDate);
}

#[test]
fn test_classify_differing_bytes_update() {
    let (status, reason) = classify_mapping(&file(1, b"aaaa"), &file(2, b"bbbb"));
    assert_eq!(status, DotfileStatus::Update);
    assert!(reason.is_none());
}

#[test]
fn test_classify_absent_destination_create() {
    let (status, _reason) = classify_mapping(&file(1, b"data"), &PathState::Missing);
    assert_eq!(status, DotfileStatus::Create);
}

#[test]
fn test_classify_kind_mismatch_conflict() {
    let dir = PathState::Dir { files: vec![] };
    let (status, reason) = classify_mapping(&dir, &file(1, b"x"));
    assert_eq!(status, DotfileStatus::Conflict);
    assert_eq!(reason.unwrap(), "destination is file, source is directory");
    let (status2, reason2) = classify_mapping(&file(1, b"x"), &PathState::Dir { files: vec![] });
    assert_eq!(status2, DotfileStatus::Conflict);
    assert_eq!(reason2.unwrap(), "destination is directory, source is file");
}

#[test]
fn test_classify_missing_source_conflict() {
    let (status, reason) = classify_mapping(&PathState::Missing, &file(1, b"x"));
    assert_eq!(status, DotfileStatus::Conflict);
    assert_eq!(reason.unwrap(), "source file not found");
}

#[test]
fn test_classify_same_size_and_mtime_skips_hashing() {
    // The fast path: equal sizes and equal modification times count as in
    // sync without a content comparison.
    let (status, _reason) = classify_mapping(&file(7, b"abcd"), &file(7, b"abce"));
    assert_eq!(status, DotfileStatus::UpToDate);
}

#[test]
fn test_dirs_in_sync() {
    let src = vec![DirFile { rel: "a/x".to_string(), content: b"one".to_vec() }];
    let dst_same = vec![
        DirFile { rel: "a/x".to_string(), content: b"one".to_vec() },
        DirFile { rel: "extra".to_string(), content: b"ignored".to_vec() },
    ];
    let dst_differs = vec![DirFile { rel: "a/x".to_string(), content: b"two".to_vec() }];
    let dst_missing: Vec<DirFile> = vec![];
    assert!(dirs_in_sync(&src, &dst_same));
    assert!(!dirs_in_sync(&src, &dst_differs));
    assert!(!dirs_in_sync(&src, &dst_missing));
}

#[test]
fn test_sample_scenario_fish_create() {
    let config = Config::parse("@pkg fish\n:config fish -> ~/.config/fish\n@pkgs\nhtop\n").unwrap();
    assert!(config.packages.contains_key("fish"));
    assert!(config.packages.contains_key("htop"));
    assert_eq!(
        config.packages.get("fish").unwrap().config,
        vec!["fish -> ~/.config/fish".to_string()]
    );
    assert!(config.packages.get("htop").unwrap().config.is_empty());
    let mappings = get_dotfile_mappings(&config);
    assert_eq!(mappings.len(), 1);
    assert_eq!(mappings[0].source, "fish");
    assert_eq!(mappings[0].destination, "~/.config/fish");
    // With no existing destination the one mapping classifies Create.
    let facts = vec![MappingFacts {
        source: mappings[0].source.clone(),
        destination: mappings[0].destination.clone(),
        source_state: PathState::Dir {
            files: vec![DirFile { rel: "config.fish".to_string(), content: b"set -U".to_vec() }],
        },
        dest_state: PathState::Missing,
    }];
    let actions = analyze_dotfiles(&facts);
    assert_eq!(actions.len(), 1);
    assert_eq!(actions[0].status, DotfileStatus::Create);
    assert_eq!(actions[0].source, "fish");
    assert_eq!(actions[0].destination, "~/.config/fish");
    assert!(has_actionable_dotfiles(&facts));
}

#[test]
fn test_bare_config_value_derives_source_from_basename() {
    let config = Config::parse("@pkg kitty\n:config ~/.config/kitty/kitty.conf\n").unwrap();
    let mappings = get_dotfile_mappings(&config);
    assert_eq!(mappings.len(), 1);
    assert_eq!(mappings[0].source, "kitty.conf");
    assert_eq!(mappings[0].destination, "~/.config/kitty/kitty.conf");
}

#[test]
fn test_record_copy_result_downgrades_failures() {
    let action = DotfileAction {
        source: "a".to_string(),
        destination: "b".to_string(),
        status: DotfileStatus::Update,
        reason: None,
    };
    let failure = "permission denied".to_string();
    let failed = record_copy_result(&action, Some(&failure));
    assert_eq!(failed.status, DotfileStatus::Conflict);
    assert_eq!(failed.reason.unwrap(), "Copy failed: permission denied");
    let ok = record_copy_result(&action, None);
    assert_eq!(ok.status, DotfileStatus::Update);
}

#[test]
fn test_sha256_hex_known_digest() {
    assert_eq!(
        sha256_hex(b""),
        "e3b0c44298fc1c149afbf4c8996fb92427ae41e4649b934ca495991b7852b855"
    );
    assert_eq!(
        sha256_hex(b"abc"),
        "ba7816bf8f01cfea414140de5dae2223b00361a396177a9cb410ff61f20015ad"
    );
}

#[test]
fn test_up_to_date_not_actionable() {
    let facts = vec![MappingFacts {
        source: "s".to_string(),
        destination: "d".to_string(),
        source_state: file(1, b"x"),
        dest_state: file(9, b"x"),
    }];
    assert!(!has_actionable_dotfiles(&facts));
}

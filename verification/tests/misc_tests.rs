use owl::analysis::{
    add_package_to_content, count_dotfile_packages, count_environment_variables, number_brackets,
    parse_verbose,
};
use owl::color;
use owl::config::{Config, EnvEntry, EnvMap, Package};
use owl::env::{collect_all_env_vars, compare_env_vars, parse_env_file, render_env_bash,
    render_env_fish};
use owl::find::{find_config_syntax_in_file, find_package_in_file, is_in_packages_section,
    LocationContext};
use owl::services::get_configured_services;

#[test]
fn test_get_configured_services() {
    let mut config = Config::new();
    config.packages.insert(
        "test1".to_string(),
        Package { config: vec![], service: Some("service1".to_string()), env_vars: EnvMap::new() },
    );
    config.packages.insert(
        "test2".to_string(),
        Package { config: vec![], service: None, env_vars: EnvMap::new() },
    );
    config.packages.insert(
        "test3".to_string(),
        Package { config: vec![], service: Some("service3".to_string()), env_vars: EnvMap::new() },
    );
    let services = get_configured_services(&config);
    assert_eq!(services.len(), 2);
    assert!(services.contains(&"service1".to_string()));
    assert!(services.contains(&"service3".to_string()));
    assert!(!services.contains(&"service2".to_string()));
}

#[test]
fn test_analysis_build() {
    let config = Config::parse("@pkg a\n:config x -> y\n:service ad\n@pkgs\nb\n").unwrap();
    let state = owl::state::PackageState::initial();
    let installed = vec!["a".to_string()];
    let groups: Vec<owl::planner::PkgGroup> = vec![];
    let analysis = owl::analysis::Analysis::build(&config, &state, &installed, &groups, 7);
    assert_eq!(analysis.package_count, 7);
    assert_eq!(analysis.dotfile_count, 1);
    assert_eq!(analysis.service_count, 1);
    assert_eq!(analysis.config_package_count, 2);
    assert_eq!(analysis.actions.len(), 1);
}

#[test]
fn test_counts() {
    let config = Config::parse(
        "@pkg a\n:config x -> y\n:env K=V\n@pkg b\n:env L=W\n@pkgs\nc\n@env G=1\n",
    )
    .unwrap();
    assert_eq!(count_dotfile_packages(&config), 1);
    assert_eq!(count_environment_variables(&config), 3);
}

#[test]
fn test_number_brackets() {
    assert_eq!(number_brackets(0), "[0]");
    assert_eq!(number_brackets(17), "[17]");
    assert_eq!(number_brackets(-3), "[-3]");
}

#[test]
fn test_parse_verbose() {
    let args = vec!["-v".to_string(), "apply".to_string(), "--verbose".to_string()];
    let (verbose, rest) = parse_verbose(&args);
    assert!(verbose);
    assert_eq!(rest, vec!["apply".to_string()]);
    let args2 = vec!["dots".to_string()];
    let (verbose2, rest2) = parse_verbose(&args2);
    assert!(!verbose2);
    assert_eq!(rest2, vec!["dots".to_string()]);
}

#[test]
fn test_add_package_to_existing_section() {
    let content = "@pkg fish\n\n@packages\nhtop\n";
    let out = add_package_to_content("eza", content, "main.owl").unwrap();
    assert_eq!(out, "@pkg fish\n\n@packages\neza\nhtop\n");
}

#[test]
fn test_add_package_creates_section() {
    let content = "@pkg fish\n";
    let out = add_package_to_content("eza", content, "main.owl").unwrap();
    assert_eq!(out, "@pkg fish\n\n@packages\neza\n");
}

#[test]
fn test_add_package_rejects_duplicate() {
    let content = "@packages\neza\n";
    let err = add_package_to_content("eza", content, "main.owl").unwrap_err();
    assert_eq!(err, "Package 'eza' already exists in main.owl");
}

#[test]
fn test_colorize() {
    assert_eq!(color::red("x"), "\x1b[31mx\x1b[0m");
    assert_eq!(color::green("ok"), "\x1b[32mok\x1b[0m");
    assert_eq!(color::highlight("h"), "\x1b[1;36mh\x1b[0m");
    assert_eq!(color::dim(""), "\x1b[2m\x1b[0m");
}

#[test]
fn test_collect_env_vars_sorted_package_overrides_global() {
    let config = Config::parse("@env B=global\n@env A=1\n@pkg p\n:env B=pkg\n").unwrap();
    let vars = collect_all_env_vars(&config);
    let pairs: Vec<(String, String)> =
        vars.iter().map(|e| (e.key.clone(), e.value.clone())).collect();
    assert_eq!(
        pairs,
        vec![
            ("A".to_string(), "1".to_string()),
            ("B".to_string(), "pkg".to_string()),
        ]
    );
}

#[test]
fn test_render_and_parse_env_files() {
    let envs = vec![
        EnvEntry { key: "A".to_string(), value: "one".to_string() },
        EnvEntry { key: "B".to_string(), value: "two words".to_string() },
    ];
    let bash = render_env_bash(&envs);
    assert_eq!(bash, "export A=\"one\"\nexport B=\"two words\"\n");
    let fish = render_env_fish(&envs);
    assert_eq!(fish, "set -x A \"one\"\nset -x B \"two words\"\n");
    let parsed = parse_env_file(bash.as_str());
    assert_eq!(parsed.get("A").unwrap(), "one");
    assert_eq!(parsed.get("B").unwrap(), "two words");
}

#[test]
fn test_env_values_with_quotes_round_trip() {
    let envs = vec![
        EnvEntry { key: "A".to_string(), value: "say \"hi\"".to_string() },
        EnvEntry { key: "B".to_string(), value: "back\\slash".to_string() },
    ];
    let bash = render_env_bash(&envs);
    assert_eq!(bash, "export A=\"say \\\"hi\\\"\"\nexport B=\"back\\\\slash\"\n");
    let parsed = parse_env_file(bash.as_str());
    assert_eq!(parsed.get("A").unwrap(), "say \"hi\"");
    assert_eq!(parsed.get("B").unwrap(), "back\\slash");
}

#[test]
fn test_resolve_paths() {
    assert_eq!(
        owl::dotfiles::resolve_source_path("fish", "/home/u"),
        "/home/u/.owl/dotfiles/fish"
    );
    assert_eq!(owl::dotfiles::resolve_source_path("/abs/path", "/home/u"), "/abs/path");
    assert_eq!(owl::dotfiles::resolve_source_path("./rel", "/home/u"), "./rel");
    assert_eq!(
        owl::dotfiles::resolve_destination_path("~/.config/fish", "/home/u"),
        "/home/u/.config/fish"
    );
    assert_eq!(owl::dotfiles::resolve_destination_path("/etc/motd", "/home/u"), "/etc/motd");
}

#[test]
fn test_retry_decisions() {
    assert!(owl::pm::is_transient_error("error sending request for url"));
    assert!(owl::pm::is_transient_error("read failed: Connection reset by peer"));
    assert!(owl::pm::is_transient_error("io error (os error 104)"));
    assert!(!owl::pm::is_transient_error("target not found: nosuchpkg"));
    assert_eq!(owl::pm::backoff_delay_secs(0), 1);
    assert_eq!(owl::pm::backoff_delay_secs(3), 8);
    assert!(owl::pm::should_retry("error trying to connect", 0, 3));
    assert!(!owl::pm::should_retry("error trying to connect", 3, 3));
    assert!(!owl::pm::should_retry("permission denied", 0, 3));
}

#[test]
fn test_compare_env_vars() {
    let existing = parse_env_file("export A=\"1\"\nexport B=\"2\"\nexport C=\"3\"\n");
    let wanted = vec![
        EnvEntry { key: "A".to_string(), value: "1".to_string() },
        EnvEntry { key: "B".to_string(), value: "changed".to_string() },
        EnvEntry { key: "D".to_string(), value: "new".to_string() },
    ];
    let cmp = compare_env_vars(&wanted, &existing);
    assert_eq!(cmp.unchanged.len(), 1);
    assert_eq!(cmp.unchanged[0].key, "A");
    assert_eq!(cmp.updated.len(), 1);
    assert_eq!(cmp.updated[0].key, "B");
    assert_eq!(cmp.added.len(), 1);
    assert_eq!(cmp.added[0].key, "D");
    assert_eq!(cmp.removed, vec!["C".to_string()]);
}

#[test]
fn test_find_package_in_file() {
    let content = "@pkg fish\n@packages\nhtop\n";
    let locations = find_package_in_file("htop", content, "main.owl");
    assert_eq!(locations.len(), 1);
    assert_eq!(locations[0].line_number, 3);
    assert_eq!(locations[0].context, LocationContext::PackagesSection);
    let decls = find_package_in_file("fish", content, "main.owl");
    assert_eq!(decls.len(), 1);
    assert_eq!(decls[0].context, LocationContext::PackageDeclaration);
}

#[test]
fn test_find_config_syntax_in_file() {
    let content = "@env E=1\n:service sshd\n@group base\n";
    let q_env = vec!["@env".to_string()];
    let hits = find_config_syntax_in_file(&q_env, content, "f.owl");
    assert_eq!(hits.len(), 1);
    assert_eq!(hits[0].context, LocationContext::EnvDeclaration);
    let q_svc = vec![":service".to_string()];
    let hits2 = find_config_syntax_in_file(&q_svc, content, "f.owl");
    assert_eq!(hits2.len(), 1);
    assert_eq!(hits2[0].context, LocationContext::ServiceDirective);
    let q_alt = vec!["@package".to_string(), "x".to_string()];
    let hits3 = find_config_syntax_in_file(&q_alt, "@pkg x\n", "f.owl");
    assert_eq!(hits3.len(), 1);
    assert_eq!(hits3[0].context, LocationContext::AlternativeSyntax);
}

#[test]
fn test_is_in_packages_section() {
    let content = "@packages\na\n@pkg q\nb\n";
    assert!(is_in_packages_section(content, 1));
    assert!(!is_in_packages_section(content, 0));
    assert!(!is_in_packages_section(content, 3));
}

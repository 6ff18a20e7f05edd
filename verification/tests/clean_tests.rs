use owl::config::Config;

#[test]
fn test_optimize_config() {
    let content = "@package loose1\n\n@package withconfig\n:config test -> ~/.config/test\n\n@packages\nloose2\nloose3\n\n@env GLOBAL=val\n@group testgroup";
    let config = Config::parse(content).unwrap();
    let optimized = config.optimize_config();
    let expected = "@group testgroup\n\n@env GLOBAL=val\n\n@pkg withconfig\n:cfg test -> ~/.config/test\n\n@pkgs\nloose1\nloose2\nloose3";
    assert_eq!(optimized, expected);
}

#[test]
fn test_clean_sorts_bare_packages() {
    let content = "@packages\nb\na\n";
    let config = Config::parse(content).unwrap();
    let optimized = config.optimize_config();
    assert_eq!(optimized, "@pkgs\na\nb");
}

#[test]
fn test_round_trip_names_groups_env() {
    let content = "@group zeta\n@group alpha\n@env B=2\n@env A=1\n@pkg fish\n:config fish -> ~/.config/fish\n:service fishd\n:env FISH_OPT=fast\n@pkgs\nhtop\neza\n";
    let config = Config::parse(content).unwrap();
    let serialized = config.optimize_config();
    let reparsed = Config::parse(serialized.as_str()).unwrap();
    // Package names, group names and env entries survive the round trip.
    assert!(reparsed.packages.contains_key("fish"));
    assert!(reparsed.packages.contains_key("htop"));
    assert!(reparsed.packages.contains_key("eza"));
    assert_eq!(reparsed.packages.len(), 3);
    assert_eq!(reparsed.groups, vec!["alpha".to_string(), "zeta".to_string()]);
    assert_eq!(reparsed.env_vars.get("A").unwrap(), "1");
    assert_eq!(reparsed.env_vars.get("B").unwrap(), "2");
    assert_eq!(reparsed.env_vars.len(), 2);
    // The fish package keeps its directives too.
    let fish = reparsed.packages.get("fish").unwrap();
    assert_eq!(fish.config, vec!["fish -> ~/.config/fish".to_string()]);
    assert_eq!(fish.service.as_ref().unwrap(), "fishd");
    assert_eq!(fish.env_vars.get("FISH_OPT").unwrap(), "fast");
}

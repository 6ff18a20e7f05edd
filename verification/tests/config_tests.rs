use owl::config::{Config, EnvMap, Package};

fn parse(content: &str) -> Config {
    Config::parse(content).unwrap()
}

#[test]
fn config_test_parse_simple_config() {
    let content = "@package test\n:config test -> ~/.config/test";
    let config = parse(content);
    assert!(config.packages.contains_key("test"));
}

#[test]
fn mod_test_parse_simple_config() {
    let content = "@package test\n:config test -> ~/.config/test";
    let config = parse(content);
    assert!(config.packages.contains_key("test"));
}

#[test]
fn test_parse_basic_package() {
    let content = "@package test-package\n:config test -> ~/.config/test";
    let config = parse(content);
    assert!(config.packages.contains_key("test-package"));
    let package = config.packages.get("test-package").unwrap();
    assert_eq!(package.config, vec!["test -> ~/.config/test".to_string()]);
}

#[test]
fn config_test_parse_packages_section() {
    let content = "@packages\npackage1\npackage2\npackage3";
    let config = parse(content);
    assert!(config.packages.contains_key("package1"));
    assert!(config.packages.contains_key("package2"));
    assert!(config.packages.contains_key("package3"));
}

#[test]
fn mod_test_parse_packages_section() {
    let content = "@packages\npackage1\npackage2\npackage3";
    let config = parse(content);
    assert!(config.packages.contains_key("package1"));
    assert!(config.packages.contains_key("package2"));
    assert!(config.packages.contains_key("package3"));
}

#[test]
fn config_test_parse_service_directive() {
    let content = "@package test-service\n:service test-service";
    let config = parse(content);
    let package = config.packages.get("test-service").unwrap();
    assert_eq!(package.service.as_ref().unwrap(), "test-service");
}

#[test]
fn mod_test_parse_service_directive() {
    let content = "@package test-service\n:service test-service";
    let config = parse(content);
    let package = config.packages.get("test-service").unwrap();
    assert_eq!(package.service.as_ref().unwrap(), "test-service");
}

#[test]
fn config_test_parse_env_directive() {
    let content = "@package test-env\n:env TEST_VAR=test_value";
    let config = parse(content);
    let package = config.packages.get("test-env").unwrap();
    assert_eq!(package.env_vars.get("TEST_VAR").unwrap(), "test_value");
}

#[test]
fn mod_test_parse_env_directive() {
    let content = "@package test-env\n:env TEST_VAR=test_value";
    let config = parse(content);
    let package = config.packages.get("test-env").unwrap();
    assert_eq!(package.env_vars.get("TEST_VAR").unwrap(), "test_value");
}

#[test]
fn config_test_parse_global_env_directive() {
    let content = "@env GLOBAL_VAR=global_value";
    let config = parse(content);
    assert_eq!(config.env_vars.get("GLOBAL_VAR").unwrap(), "global_value");
}

#[test]
fn mod_test_parse_global_env_directive() {
    let content = "@env GLOBAL_VAR=global_value";
    let config = parse(content);
    assert_eq!(config.env_vars.get("GLOBAL_VAR").unwrap(), "global_value");
}

#[test]
fn config_test_parse_group_directive() {
    let content = "@group test-group";
    let config = parse(content);
    assert!(config.groups.contains(&"test-group".to_string()));
}

#[test]
fn mod_test_parse_group_directive() {
    let content = "@group test-group";
    let config = parse(content);
    assert!(config.groups.contains(&"test-group".to_string()));
}

#[test]
fn config_test_parse_mixed_content() {
    let content = "@package fish\n:config fish -> ~/.config/fish\n\n@packages\neza\nvi\n\n@package htop\n\n@env EDITOR=vim\n@group core";
    let config = parse(content);
    assert!(config.packages.contains_key("fish"));
    assert!(config.packages.contains_key("htop"));
    assert!(config.packages.contains_key("eza"));
    assert!(config.packages.contains_key("vi"));
    assert_eq!(
        config.packages.get("fish").unwrap().config,
        vec!["fish -> ~/.config/fish".to_string()]
    );
    assert_eq!(config.env_vars.get("EDITOR").unwrap(), "vim");
    assert!(config.groups.contains(&"core".to_string()));
}

#[test]
fn mod_test_parse_mixed_content() {
    let content = "@package fish\n:config fish -> ~/.config/fish\n\n@packages\neza\nvi\n\n@package htop\n\n@env EDITOR=vim\n@group core";
    let config = parse(content);
    assert!(config.packages.contains_key("fish"));
    assert!(config.packages.contains_key("htop"));
    assert!(config.packages.contains_key("eza"));
    assert!(config.packages.contains_key("vi"));
    assert_eq!(
        config.packages.get("fish").unwrap().config,
        vec!["fish -> ~/.config/fish".to_string()]
    );
    assert_eq!(config.env_vars.get("EDITOR").unwrap(), "vim");
    assert!(config.groups.contains(&"core".to_string()));
}

#[test]
fn config_test_parse_comments_and_empty_lines() {
    let content = "# This is a comment\n\n@package test\n\n# Another comment\n:config test -> ~/.config/test\n\n@packages\n# Comment in packages section\npackage1\npackage2";
    let config = parse(content);
    assert!(config.packages.contains_key("test"));
    assert!(config.packages.contains_key("package1"));
    assert!(config.packages.contains_key("package2"));
    assert_eq!(
        config.packages.get("test").unwrap().config,
        vec!["test -> ~/.config/test".to_string()]
    );
}

#[test]
fn mod_test_parse_comments_and_empty_lines() {
    let content = "# This is a comment\n\n@package test\n\n# Another comment\n:config test -> ~/.config/test\n\n@packages\n# Comment in packages section\npackage1\npackage2";
    let config = parse(content);
    assert!(config.packages.contains_key("test"));
    assert!(config.packages.contains_key("package1"));
    assert!(config.packages.contains_key("package2"));
}

#[test]
fn config_test_parse_empty_config() {
    let config = parse("");
    assert!(config.packages.is_empty());
    assert!(config.groups.is_empty());
    assert!(config.env_vars.is_empty());
}

#[test]
fn mod_test_parse_empty_config() {
    let config = parse("");
    assert!(config.packages.is_empty());
    assert!(config.groups.is_empty());
    assert!(config.env_vars.is_empty());
}

#[test]
fn config_test_parse_invalid_directive() {
    let content = "@package test\n:invalid directive";
    let config = parse(content);
    assert!(config.packages.contains_key("test"));
}

#[test]
fn mod_test_parse_invalid_directive() {
    let content = "@package test\n:invalid directive";
    let config = parse(content);
    assert!(config.packages.contains_key("test"));
}

#[test]
fn config_test_merge_with_precedence() {
    let mut config1 = Config::new();
    config1.packages.insert(
        "test".to_string(),
        Package {
            config: vec!["config1".to_string()],
            service: None,
            env_vars: EnvMap::new(),
        },
    );
    let mut config2 = Config::new();
    config2.packages.insert(
        "test".to_string(),
        Package {
            config: vec!["config2".to_string()],
            service: Some("service2".to_string()),
            env_vars: EnvMap::new(),
        },
    );
    config1.merge_with_precedence(config2);
    let package = config1.packages.get("test").unwrap();
    assert_eq!(package.config, vec!["config2".to_string()]);
    assert_eq!(package.service.as_ref().unwrap(), "service2");
}

#[test]
fn mod_test_merge_with_precedence() {
    let mut config1 = Config::new();
    config1.packages.insert(
        "test".to_string(),
        Package {
            config: vec!["config1".to_string()],
            service: None,
            env_vars: EnvMap::new(),
        },
    );
    let mut config2 = Config::new();
    config2.packages.insert(
        "test".to_string(),
        Package {
            config: vec!["config2".to_string()],
            service: Some("service2".to_string()),
            env_vars: EnvMap::new(),
        },
    );
    config1.merge_with_precedence(config2);
    let package = config1.packages.get("test").unwrap();
    assert_eq!(package.config, vec!["config2".to_string()]);
    assert_eq!(package.service.as_ref().unwrap(), "service2");
}

#[test]
fn config_test_parse_pkg_alternative_syntax() {
    let content = "@pkg test-package\n:config test -> ~/.config/test";
    let config = parse(content);
    assert!(config.packages.contains_key("test-package"));
    let package = config.packages.get("test-package").unwrap();
    assert_eq!(package.config, vec!["test -> ~/.config/test".to_string()]);
}

#[test]
fn mod_test_parse_pkg_alternative_syntax() {
    let content = "@pkg test-package\n:config test -> ~/.config/test";
    let config = parse(content);
    assert!(config.packages.contains_key("test-package"));
}

#[test]
fn config_test_parse_pkgs_alternative_syntax() {
    let content = "@pkgs\npackage1\npackage2\npackage3";
    let config = parse(content);
    assert!(config.packages.contains_key("package1"));
    assert!(config.packages.contains_key("package2"));
    assert!(config.packages.contains_key("package3"));
}

#[test]
fn mod_test_parse_pkgs_alternative_syntax() {
    let content = "@pkgs\npackage1\npackage2\npackage3";
    let config = parse(content);
    assert!(config.packages.contains_key("package1"));
    assert!(config.packages.contains_key("package2"));
    assert!(config.packages.contains_key("package3"));
}

#[test]
fn config_test_parse_mixed_alternative_syntax() {
    let content = "@pkg fish\n:config fish -> ~/.config/fish\n\n@pkgs\neza\nvi\n\n@package htop\n\n@env EDITOR=vim\n@group core";
    let config = parse(content);
    assert!(config.packages.contains_key("fish"));
    assert!(config.packages.contains_key("htop"));
    assert!(config.packages.contains_key("eza"));
    assert!(config.packages.contains_key("vi"));
    assert_eq!(
        config.packages.get("fish").unwrap().config,
        vec!["fish -> ~/.config/fish".to_string()]
    );
    assert_eq!(config.env_vars.get("EDITOR").unwrap(), "vim");
    assert!(config.groups.contains(&"core".to_string()));
}

#[test]
fn mod_test_parse_mixed_alternative_syntax() {
    let content = "@pkg fish\n:config fish -> ~/.config/fish\n\n@pkgs\neza\nvi\n\n@package htop\n\n@env EDITOR=vim\n@group core";
    let config = parse(content);
    assert!(config.packages.contains_key("fish"));
    assert!(config.packages.contains_key("htop"));
    assert!(config.packages.contains_key("eza"));
    assert!(config.packages.contains_key("vi"));
    assert_eq!(config.env_vars.get("EDITOR").unwrap(), "vim");
    assert!(config.groups.contains(&"core".to_string()));
}

#[test]
fn config_test_get_uninstalled_packages() {
    let mut config = Config::new();
    config.packages.insert(
        "installed-package".to_string(),
        Package { config: vec![], service: None, env_vars: EnvMap::new() },
    );
    config.packages.insert(
        "uninstalled-package".to_string(),
        Package { config: vec![], service: None, env_vars: EnvMap::new() },
    );
    let installed = vec!["installed-package".to_string()];
    let missing = owl::planner::get_uninstalled_packages(&config, &installed);
    assert_eq!(missing, vec!["uninstalled-package".to_string()]);
}

#[test]
fn mod_test_get_uninstalled_packages() {
    let mut config = Config::new();
    config.packages.insert(
        "installed-package".to_string(),
        Package { config: vec![], service: None, env_vars: EnvMap::new() },
    );
    config.packages.insert(
        "uninstalled-package".to_string(),
        Package { config: vec![], service: None, env_vars: EnvMap::new() },
    );
    let installed = vec!["installed-package".to_string()];
    let missing = owl::planner::get_uninstalled_packages(&config, &installed);
    assert_eq!(missing, vec!["uninstalled-package".to_string()]);
}

use owl::config::{Config, EnvMap, Package};
use owl::planner::{
    categorize_packages, is_package_or_group_installed, plan_package_actions, PackageAction,
    PkgGroup,
};
use owl::state::PackageState;

fn bare(config: &mut Config, name: &str) {
    config.packages.insert(
        name.to_string(),
        Package { config: vec![], service: None, env_vars: EnvMap::new() },
    );
}

#[test]
fn test_categorize_packages() {
    let packages = vec!["bash".to_string(), "nonexistentpackage12345".to_string()];
    let available = vec!["bash".to_string()];
    let (repo_packages, aur_packages) = categorize_packages(&packages, &available);
    assert!(repo_packages.contains(&"bash".to_string()));
    assert!(aur_packages.contains(&"nonexistentpackage12345".to_string()));
}

#[test]
fn test_is_package_or_group_installed() {
    let installed = vec!["bash".to_string(), "jack2".to_string()];
    let groups = vec![PkgGroup {
        name: "pro-audio".to_string(),
        members: vec!["jack2".to_string()],
    }];
    // A plainly installed package counts as installed.
    assert!(is_package_or_group_installed("bash", &installed, &groups));
    // A group counts as installed when every member is.
    assert!(is_package_or_group_installed("pro-audio", &installed, &groups));
    // A group with a missing member does not.
    let groups2 = vec![PkgGroup {
        name: "pro-audio".to_string(),
        members: vec!["jack2".to_string(), "ardour".to_string()],
    }];
    assert!(!is_package_or_group_installed("pro-audio", &installed, &groups2));
    // An unknown name does not.
    assert!(!is_package_or_group_installed("nonexistentpackage12345", &installed, &groups));
}

#[test]
fn test_plan_install_and_remove() {
    let mut config = Config::new();
    bare(&mut config, "wanted-missing");
    bare(&mut config, "wanted-present");
    let state = PackageState {
        untracked: vec![],
        hidden: vec![],
        managed: vec!["stray-managed".to_string()],
    };
    let installed = vec![
        "wanted-present".to_string(),
        "stray-managed".to_string(),
        "stray-unmanaged".to_string(),
    ];
    let groups: Vec<PkgGroup> = vec![];
    let actions = plan_package_actions(&config, &state, &installed, &groups);
    let installs: Vec<String> = actions
        .iter()
        .filter_map(|a| match a {
            PackageAction::Install { name } => Some(name.clone()),
            _ => None,
        })
        .collect();
    let removes: Vec<String> = actions
        .iter()
        .filter_map(|a| match a {
            PackageAction::Remove { name } => Some(name.clone()),
            _ => None,
        })
        .collect();
    assert_eq!(installs, vec!["wanted-missing".to_string()]);
    assert_eq!(removes, vec!["stray-managed".to_string()]);
}

#[test]
fn test_plan_second_run_is_empty() {
    // After a converged first run nothing is planned again.
    let mut config = Config::new();
    bare(&mut config, "a");
    bare(&mut config, "b");
    let state = PackageState {
        untracked: vec![],
        hidden: vec![],
        managed: vec!["a".to_string(), "b".to_string()],
    };
    let installed = vec!["a".to_string(), "b".to_string(), "base".to_string()];
    let groups: Vec<PkgGroup> = vec![];
    let actions = plan_package_actions(&config, &state, &installed, &groups);
    assert!(actions.is_empty());
}

#[test]
fn test_seed_managed_adopts_installed_desired() {
    let mut config = Config::new();
    bare(&mut config, "zed");
    bare(&mut config, "abc");
    let mut state = PackageState { untracked: vec![], hidden: vec![], managed: vec![] };
    let installed = vec!["zed".to_string(), "abc".to_string()];
    let groups: Vec<PkgGroup> = vec![];
    let changed =
        owl::planner::seed_managed_with_desired_installed(&config, &mut state, &installed, &groups);
    assert!(changed);
    assert_eq!(state.managed, vec!["abc".to_string(), "zed".to_string()]);
    let changed_again =
        owl::planner::seed_managed_with_desired_installed(&config, &mut state, &installed, &groups);
    assert!(!changed_again);
}

#[test]
fn test_seed_managed_adopts_installed_group() {
    // A desired name that is a group counts as installed when every
    // member is, and is adopted like a plain package.
    let mut config = Config::new();
    bare(&mut config, "pro-audio");
    let mut state = PackageState { untracked: vec![], hidden: vec![], managed: vec![] };
    let installed = vec!["jack2".to_string(), "ardour".to_string()];
    let groups = vec![PkgGroup {
        name: "pro-audio".to_string(),
        members: vec!["jack2".to_string(), "ardour".to_string()],
    }];
    let changed =
        owl::planner::seed_managed_with_desired_installed(&config, &mut state, &installed, &groups);
    assert!(changed);
    assert_eq!(state.managed, vec!["pro-audio".to_string()]);
}

#[test]
fn test_state_lists() {
    let mut state = PackageState::initial();
    assert!(state.is_untracked("linux"));
    assert!(state.is_untracked("base"));
    assert!(state.hidden.is_empty());
    assert!(state.managed.is_empty());

    state.add_untracked("test-package".to_string());
    assert!(state.is_untracked("test-package"));
    state.remove_untracked("test-package");
    assert!(!state.is_untracked("test-package"));

    state.add_hidden("hidden-package".to_string());
    assert!(state.is_hidden("hidden-package"));
    state.remove_hidden("hidden-package");
    assert!(!state.is_hidden("hidden-package"));

    state.add_managed("managed-package".to_string());
    assert!(state.is_managed("managed-package"));
    state.remove_managed("managed-package");
    assert!(!state.is_managed("managed-package"));
}

#[test]
fn test_state_file_texts_round_trip() {
    let mut state = PackageState::initial();
    state.add_managed("bb".to_string());
    state.add_managed("aa".to_string());
    state.add_hidden("hh".to_string());
    let (untracked_json, hidden_txt, managed_json) = state.to_file_texts().unwrap();
    assert_eq!(managed_json, "[\n  \"aa\",\n  \"bb\"\n]");
    assert_eq!(hidden_txt, "hh\n");
    let loaded = PackageState::from_file_texts(
        Some(&untracked_json),
        Some(&hidden_txt),
        Some(&managed_json),
    )
    .unwrap();
    assert_eq!(loaded.managed, vec!["aa".to_string(), "bb".to_string()]);
    assert_eq!(loaded.hidden, vec!["hh".to_string()]);
    assert!(loaded.untracked.contains(&"linux".to_string()));
}

#[test]
fn test_state_rejects_bad_json() {
    let bad = "not json".to_string();
    assert!(PackageState::from_file_texts(None, None, Some(&bad)).is_err());
}

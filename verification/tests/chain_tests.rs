use owl::chain::GroupDoc;
use owl::config::Config;

fn doc(name: &str, text: &str) -> GroupDoc {
    GroupDoc { name: name.to_string(), text: text.to_string() }
}

#[test]
fn test_chain_precedence_main_over_groups() {
    // P declared with a directive in a group document and redeclared bare
    // in the main document: main is the highest-precedence document and
    // its bare entry replaces the group's entry entirely — the group's
    // directive does not survive. (Under the fill-gaps variant it would.)
    let main = "@group extras\n@packages\nfish\n".to_string();
    let docs = vec![doc("extras", "@pkg fish\n:config fish -> ~/.config/fish\n")];
    let merged = Config::resolve_chain(Some(&main), None, &docs);
    let fish = merged.packages.get("fish").unwrap();
    assert!(fish.config.is_empty());
    assert!(fish.service.is_none());
}

#[test]
fn test_chain_group_entry_survives_when_main_is_silent() {
    // A package only a group document declares keeps the group's entry.
    let main = "@group extras\n".to_string();
    let docs = vec![doc("extras", "@pkg fish\n:config fish -> ~/.config/fish\n")];
    let merged = Config::resolve_chain(Some(&main), None, &docs);
    let fish = merged.packages.get("fish").unwrap();
    assert_eq!(fish.config, vec!["fish -> ~/.config/fish".to_string()]);
}

#[test]
fn test_chain_replacement_is_entire() {
    // Replacement is of the whole entry, no field-level gap filling: the
    // main document's entry stands alone, without the group's directive.
    let main = "@pkg fish\n:service maind\n".to_string();
    let docs = vec![doc("g", "@pkg fish\n:config a -> b\n")];
    let host = "@group g\n".to_string();
    let merged = Config::resolve_chain(Some(&main), Some(&host), &docs);
    let fish = merged.packages.get("fish").unwrap();
    assert!(fish.config.is_empty());
    assert_eq!(fish.service.as_ref().unwrap(), "maind");
}

#[test]
fn test_chain_main_beats_nothing() {
    // A name only the main document declares keeps its main entry.
    let main = "@pkg htop\n:service htopd\n".to_string();
    let merged = Config::resolve_chain(Some(&main), None, &vec![]);
    assert_eq!(merged.packages.get("htop").unwrap().service.as_ref().unwrap(), "htopd");
}

#[test]
fn test_chain_cycle_terminates_and_groups_unique() {
    // Two group documents that reference each other, one of them itself:
    // traversal must terminate, every package is collected, and the
    // resolved group list holds each name once.
    let main = "@group a\n".to_string();
    let docs = vec![
        doc("a", "@group b\n@group a\n@packages\npkg-a\n"),
        doc("b", "@group a\n@packages\npkg-b\n"),
    ];
    let merged = Config::resolve_chain(Some(&main), None, &docs);
    assert!(merged.packages.contains_key("pkg-a"));
    assert!(merged.packages.contains_key("pkg-b"));
    let mut sorted = merged.groups.clone();
    sorted.sort();
    sorted.dedup();
    assert_eq!(sorted.len(), merged.groups.len());
    assert!(merged.groups.contains(&"a".to_string()));
    assert!(merged.groups.contains(&"b".to_string()));
}

#[test]
fn test_chain_env_precedence_main_host_groups() {
    let main = "@env EDITOR=vi\n".to_string();
    let host = "@env EDITOR=vim\n@env PAGER=less\n@group g\n".to_string();
    let docs = vec![doc("g", "@env PAGER=bat\n@env TERM=xterm\n")];
    let merged = Config::resolve_chain(Some(&main), Some(&host), &docs);
    // Main beats host, host beats the group document, the group document
    // contributes what nothing above it binds.
    assert_eq!(merged.env_vars.get("EDITOR").unwrap(), "vi");
    assert_eq!(merged.env_vars.get("PAGER").unwrap(), "less");
    assert_eq!(merged.env_vars.get("TERM").unwrap(), "xterm");
}

#[test]
fn test_merge_unions_groups_without_duplicates() {
    let mut a = Config::parse("@group one\n@group two\n").unwrap();
    let b = Config::parse("@group two\n@group three\n").unwrap();
    a.merge_with_precedence(b);
    assert_eq!(
        a.groups,
        vec!["one".to_string(), "two".to_string(), "three".to_string()]
    );
}

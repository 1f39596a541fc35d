use archman::config::{
    flatten_per_host, merge_per_host, override_per_host, Config, ConfigData, FlattenedSet,
    NestedSet, PerHostname,
};

fn names(list: &[&str]) -> Vec<String> {
    list.iter().map(|s| s.to_string()).collect()
}

fn leaf(name: &str) -> NestedSet {
    NestedSet::Singleton(name.to_string())
}

fn pairs(list: &[(&str, &str)]) -> Vec<(String, String)> {
    list.iter().map(|(k, v)| (k.to_string(), v.to_string())).collect()
}

fn flatten(set: &NestedSet) -> FlattenedSet {
    let mut flattened = FlattenedSet::new();
    set.flatten_into(&mut flattened);
    flattened
}

#[test]
fn flatten_detects_duplicates() {
    let set = NestedSet::Array(vec![leaf("a"), NestedSet::Array(vec![leaf("a"), leaf("b")])]);
    let flattened = flatten(&set);
    assert_eq!(flattened.elements, names(&["a", "b"]));
    assert_eq!(flattened.duplicates, names(&["a"]));
}

#[test]
fn flatten_single_name() {
    let flattened = flatten(&leaf("vim"));
    assert_eq!(flattened.elements, names(&["vim"]));
    assert!(flattened.duplicates.is_empty());
}

#[test]
fn flatten_default_is_empty() {
    let flattened = flatten(&NestedSet::default());
    assert!(flattened.elements.is_empty());
    assert!(flattened.duplicates.is_empty());
}

#[test]
fn flatten_named_groups_ignores_group_names() {
    let set = NestedSet::NamedGroups(vec![
        ("editors".to_string(), NestedSet::Array(vec![leaf("vim"), leaf("emacs")])),
        ("vim".to_string(), leaf("git")),
        ("shells".to_string(), NestedSet::NamedGroups(vec![("z".to_string(), leaf("zsh"))])),
    ]);
    let flattened = flatten(&set);
    assert_eq!(flattened.elements, names(&["emacs", "git", "vim", "zsh"]));
    assert!(flattened.duplicates.is_empty());
}

#[test]
fn flatten_is_order_independent() {
    let one = NestedSet::Array(vec![
        leaf("c"),
        NestedSet::Array(vec![leaf("a"), leaf("b")]),
        leaf("a"),
        leaf("c"),
        leaf("c"),
    ]);
    let other = NestedSet::Array(vec![
        leaf("a"),
        leaf("c"),
        leaf("c"),
        NestedSet::Array(vec![leaf("a"), leaf("b")]),
        leaf("c"),
    ]);
    let x = flatten(&one);
    let y = flatten(&other);
    assert_eq!(x.elements, names(&["a", "b", "c"]));
    assert_eq!(x.duplicates, names(&["a", "c"]));
    assert_eq!(x.elements, y.elements);
    assert_eq!(x.duplicates, y.duplicates);
}

#[test]
fn flattened_set_insert_and_extend() {
    let mut set = FlattenedSet::new();
    set.insert("b".to_string());
    set.insert("a".to_string());
    assert_eq!(set.elements, names(&["a", "b"]));
    assert!(set.duplicates.is_empty());
    set.insert("b".to_string());
    assert_eq!(set.duplicates, names(&["b"]));
    set.extend(&names(&["c", "a", "c", "d"]));
    assert_eq!(set.elements, names(&["a", "b", "c", "d"]));
    assert_eq!(set.duplicates, names(&["a", "b", "c"]));
}

#[test]
fn per_host_sets_extend_and_flag_collisions() {
    let declared = PerHostname {
        common: Some(NestedSet::Array(vec![leaf("vim"), leaf("git")])),
        hosts: vec![
            ("laptop".to_string(), NestedSet::Array(vec![leaf("tlp"), leaf("git")])),
            ("desktop".to_string(), leaf("steam")),
        ],
    };
    let laptop = flatten_per_host(&declared, &"laptop".to_string());
    assert_eq!(laptop.elements, names(&["git", "tlp", "vim"]));
    assert_eq!(laptop.duplicates, names(&["git"]));
    let desktop = flatten_per_host(&declared, &"desktop".to_string());
    assert_eq!(desktop.elements, names(&["git", "steam", "vim"]));
    assert!(desktop.duplicates.is_empty());
    let other = flatten_per_host(&declared, &"server".to_string());
    assert_eq!(other.elements, names(&["git", "vim"]));
    assert!(other.duplicates.is_empty());
}

#[test]
fn per_host_lists_merge() {
    let declared = PerHostname {
        common: Some(names(&["sshd", "cronie"])),
        hosts: vec![("laptop".to_string(), names(&["tlp", "sshd"]))],
    };
    let laptop = merge_per_host(&declared, &"laptop".to_string());
    assert_eq!(laptop.elements, names(&["cronie", "sshd", "tlp"]));
    assert_eq!(laptop.duplicates, names(&["sshd"]));
    let nothing: PerHostname<String, Vec<String>> = PerHostname::new();
    let empty = merge_per_host(&nothing, &"laptop".to_string());
    assert!(empty.elements.is_empty());
    assert!(empty.duplicates.is_empty());
}

#[test]
fn per_host_override_of_links() {
    let declared = PerHostname {
        common: Some(pairs(&[("/x", "y")])),
        hosts: vec![("H".to_string(), pairs(&[("/x", "z")]))],
    };
    assert_eq!(override_per_host(&declared, &"H".to_string()), pairs(&[("/x", "z")]));
    assert_eq!(override_per_host(&declared, &"G".to_string()), pairs(&[("/x", "y")]));
}

#[test]
fn per_host_override_keeps_other_entries() {
    let declared = PerHostname {
        common: Some(pairs(&[("/a", "1"), ("/b", "2")])),
        hosts: vec![("H".to_string(), pairs(&[("/b", "3"), ("/c", "4")]))],
    };
    let mut merged = override_per_host(&declared, &"H".to_string());
    merged.sort();
    assert_eq!(merged, pairs(&[("/a", "1"), ("/b", "3"), ("/c", "4")]));
}

#[test]
fn first_host_entry_counts() {
    let declared = PerHostname {
        common: None,
        hosts: vec![("H".to_string(), 1u8), ("G".to_string(), 2u8), ("H".to_string(), 3u8)],
    };
    assert_eq!(declared.host(&"H".to_string()), Some(&1u8));
    assert_eq!(declared.host(&"G".to_string()), Some(&2u8));
    assert_eq!(declared.host(&"F".to_string()), None);
}

#[test]
fn map_keys_keeps_values_and_order() {
    let declared = PerHostname {
        common: Some(7u8),
        hosts: vec![("a".to_string(), 1u8), ("b".to_string(), 2u8)],
    };
    let mapped = declared.map_keys(|k: String| k.len());
    assert_eq!(mapped.common, Some(7u8));
    assert_eq!(mapped.hosts, vec![(1usize, 1u8), (1usize, 2u8)]);
}

#[test]
fn config_accessors_use_the_hostname() {
    let config = Config {
        hostname: "laptop".to_string(),
        data: ConfigData {
            copies: PerHostname {
                common: Some(pairs(&[("/etc/a", "/cfg/a")])),
                hosts: vec![("laptop".to_string(), pairs(&[("/etc/a", "/cfg/laptop/a")]))],
            },
            links: PerHostname {
                common: Some(pairs(&[("/home/u/.vimrc", "/cfg/vimrc")])),
                hosts: vec![("desktop".to_string(), pairs(&[("/home/u/.vimrc", "/cfg/other")]))],
            },
            package_groups: PerHostname { common: Some(names(&["xorg"])), hosts: Vec::new() },
            packages: PerHostname {
                common: Some(leaf("vim")),
                hosts: vec![("laptop".to_string(), leaf("vim"))],
            },
            services: PerHostname {
                common: None,
                hosts: vec![("laptop".to_string(), names(&["tlp", "tlp"]))],
            },
            xkb_types: Some("/usr/share/X11/xkb/types/complete".to_string()),
        },
    };
    assert_eq!(config.copies(), pairs(&[("/etc/a", "/cfg/laptop/a")]));
    assert_eq!(config.links(), pairs(&[("/home/u/.vimrc", "/cfg/vimrc")]));
    assert_eq!(config.package_groups().elements, names(&["xorg"]));
    let packages = config.packages();
    assert_eq!(packages.elements, names(&["vim"]));
    assert_eq!(packages.duplicates, names(&["vim"]));
    let services = config.services();
    assert_eq!(services.elements, names(&["tlp"]));
    assert_eq!(services.duplicates, names(&["tlp"]));
    assert_eq!(config.xkb_types(), Some(&"/usr/share/X11/xkb/types/complete".to_string()));
}

#[test]
fn effective_value_prefers_the_host() {
    let declared = PerHostname {
        common: Some("y".to_string()),
        hosts: vec![("H".to_string(), "z".to_string())],
    };
    assert_eq!(declared.effective(&"H".to_string()), Some(&"z".to_string()));
    assert_eq!(declared.effective(&"G".to_string()), Some(&"y".to_string()));
    let nothing: PerHostname<String, String> = PerHostname::default();
    assert_eq!(nothing.effective(&"H".to_string()), None);
}

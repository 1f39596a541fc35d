use archman::packages::{
    merge_declared_packages, organize_packages, query_packages, sorted_names, InstalledPackages,
};
use archman::command::Output;
use archman::pacman::PacmanError;

fn names(list: &[&str]) -> Vec<String> {
    list.iter().map(|s| s.to_string()).collect()
}

fn installed(explicit: &[&str], dependencies: &[&str], unneeded: &[&str]) -> InstalledPackages {
    InstalledPackages {
        explicit: names(explicit),
        dependencies: names(dependencies),
        unneeded: names(unneeded),
    }
}

fn answered(stdout: &str) -> Output {
    Output { success: true, stdout: stdout.as_bytes().to_vec(), stderr: Vec::new() }
}

#[test]
fn organize_reconciliation_scenario() {
    let declared = names(&["a", "b", "c"]);
    let state = installed(&["b", "d"], &["c"], &[]);
    let plan = organize_packages(&declared, &state);
    assert_eq!(plan.to_install, names(&["a"]));
    assert_eq!(plan.to_mark_as_explicit, names(&["c"]));
    assert_eq!(plan.to_remove, names(&["d"]));
    assert_eq!(plan.to_mark_as_dependency(), &names(&["d"]));
    assert_eq!(plan.unneeded, names(&[]));
}

#[test]
fn organize_sorts_every_list() {
    let declared = names(&["zsh", "vim", "git", "bash", "vim"]);
    let state = installed(&["yay", "nano", "bash"], &["git", "libx", "liba"], &["libx", "liba"]);
    let plan = organize_packages(&declared, &state);
    assert_eq!(plan.to_install, names(&["vim", "zsh"]));
    assert_eq!(plan.to_mark_as_explicit, names(&["git"]));
    assert_eq!(plan.to_remove, names(&["nano", "yay"]));
    assert_eq!(plan.unneeded, names(&["liba", "libx"]));
}

#[test]
fn organize_keeps_declared_unneeded_package() {
    let declared = names(&["liba"]);
    let state = installed(&[], &["liba", "libb"], &["liba", "libb"]);
    let plan = organize_packages(&declared, &state);
    assert_eq!(plan.to_install, names(&[]));
    assert_eq!(plan.to_mark_as_explicit, names(&["liba"]));
    assert_eq!(plan.to_remove, names(&[]));
    assert_eq!(plan.unneeded, names(&["libb"]));
}

#[test]
fn organize_nothing_declared_nothing_installed() {
    let plan = organize_packages(&names(&[]), &installed(&[], &[], &[]));
    assert!(plan.to_install.is_empty());
    assert!(plan.to_mark_as_explicit.is_empty());
    assert!(plan.to_remove.is_empty());
    assert!(plan.unneeded.is_empty());
}

#[test]
fn organize_is_idempotent_after_full_execution() {
    let declared = names(&["a", "b", "c"]);
    let before = installed(&["b", "d"], &["c", "e"], &["e"]);
    let plan = organize_packages(&declared, &before);
    assert_eq!(plan.unneeded, names(&["e"]));
    // a installed, c marked explicit, d marked as dependency and removed, e pruned
    let after = installed(&["a", "b", "c"], &[], &[]);
    let second = organize_packages(&declared, &after);
    assert!(second.to_install.is_empty());
    assert!(second.to_mark_as_explicit.is_empty());
    assert!(second.to_remove.is_empty());
    assert!(second.to_mark_as_dependency().is_empty());
    assert!(second.unneeded.is_empty());
}

#[test]
fn declared_packages_are_explicit_after_execution() {
    let declared = names(&["a", "b", "c"]);
    let before = installed(&["b", "d"], &["c"], &[]);
    let plan = organize_packages(&declared, &before);
    let mut explicit: Vec<String> = before
        .explicit
        .iter()
        .filter(|p| !plan.to_remove.contains(p))
        .cloned()
        .collect();
    explicit.extend(plan.to_mark_as_explicit.iter().cloned());
    explicit.extend(plan.to_install.iter().cloned());
    for p in &declared {
        assert!(explicit.contains(p));
    }
    assert_eq!(sorted_names(&explicit), names(&["a", "b", "c"]));
}

#[test]
fn sorted_names_orders_by_bytes_and_drops_repeats() {
    let list = names(&["b", "a", "B", "ab", "a", "", "é", "z"]);
    assert_eq!(sorted_names(&list), names(&["", "B", "a", "ab", "b", "z", "é"]));
}

#[test]
fn merge_adds_group_packages_and_reports_conflicts() {
    let packages = names(&["vim", "git", "gcc"]);
    let groups = vec![
        ("gcc".to_string(), "base-devel".to_string()),
        ("make".to_string(), "base-devel".to_string()),
        ("gcc".to_string(), "toolchain".to_string()),
        ("xorg-server".to_string(), "xorg".to_string()),
    ];
    let merged = merge_declared_packages(&packages, &groups);
    assert_eq!(merged.packages, names(&["gcc", "git", "make", "vim", "xorg-server"]));
    assert_eq!(merged.duplicates, vec![("gcc".to_string(), "base-devel".to_string())]);
}

#[test]
fn merge_without_groups_keeps_the_packages() {
    let merged = merge_declared_packages(&names(&["b", "a"]), &Vec::new());
    assert_eq!(merged.packages, names(&["a", "b"]));
    assert!(merged.duplicates.is_empty());
}

#[test]
fn query_packages_reads_three_outputs() {
    let r = query_packages(answered("b\nd\n"), answered("c\ne\n"), answered("e\n")).unwrap();
    assert_eq!(r.explicit, names(&["b", "d"]));
    assert_eq!(r.dependencies, names(&["c", "e"]));
    assert_eq!(r.unneeded, names(&["e"]));
}

#[test]
fn query_packages_silent_failure_is_empty() {
    let silent = Output { success: false, stdout: Vec::new(), stderr: Vec::new() };
    let r = query_packages(answered("b\n"), answered("c\n"), silent).unwrap();
    assert!(r.unneeded.is_empty());
}

#[test]
fn query_packages_first_error_wins() {
    let loud = Output { success: false, stdout: Vec::new(), stderr: b"error".to_vec() };
    let garbled = Output { success: true, stdout: vec![0xff, 0xfe], stderr: Vec::new() };
    match query_packages(answered("b\n"), loud, garbled) {
        Err(PacmanError::ExitFailure) => {}
        other => panic!("unexpected: {:?}", other),
    }
    let loud = Output { success: false, stdout: Vec::new(), stderr: b"error".to_vec() };
    let garbled = Output { success: true, stdout: vec![0xff, 0xfe], stderr: Vec::new() };
    match query_packages(garbled, answered("c\n"), loud) {
        Err(PacmanError::NonUtf8Output(bytes)) => assert_eq!(bytes, vec![0xff, 0xfe]),
        other => panic!("unexpected: {:?}", other),
    }
}

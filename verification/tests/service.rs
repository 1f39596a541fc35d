use archman::args::{CopyArgs, LinkArgs, ShowArgs};
use archman::command::Status;
use archman::link::{create_copy, create_link, Deed, Found};
use archman::packages::{query_groups, InstalledPackages, OrganizedPackages};
use archman::service::{
    check_service_status, enable_services, enabling_message, find_services_to_enable, is_active,
    is_enabled, run_for_status, services_str, should_enable, systemctl_preset_all, ServiceError,
    ServiceStatus,
};
use archman::show::{print_packages, print_summary, show_packages, summary};
use archman::text::decimal;

fn names(list: &[&str]) -> Vec<String> {
    list.iter().map(|s| s.to_string()).collect()
}

fn status(enabled: bool, active: bool) -> ServiceStatus {
    ServiceStatus { enabled, active }
}

#[test]
fn should_enable_table() {
    assert!(should_enable(status(false, false), false));
    assert!(should_enable(status(false, true), false));
    assert!(should_enable(status(false, false), true));
    assert!(should_enable(status(false, true), true));
    assert!(!should_enable(status(true, true), false));
    assert!(!should_enable(status(true, true), true));
    assert!(!should_enable(status(true, false), false));
    assert!(should_enable(status(true, false), true));
}

#[test]
fn services_to_enable_are_sorted() {
    let declared = vec![
        ("sshd".to_string(), status(false, false)),
        ("tlp".to_string(), status(true, false)),
        ("cronie".to_string(), status(false, true)),
        ("cups".to_string(), status(true, true)),
    ];
    assert_eq!(find_services_to_enable(&declared, false), names(&["cronie", "sshd"]));
    assert_eq!(find_services_to_enable(&declared, true), names(&["cronie", "sshd", "tlp"]));
    assert!(find_services_to_enable(&Vec::new(), true).is_empty());
}

#[test]
fn service_status_from_two_commands() {
    assert_eq!(
        check_service_status(Status::Exited { success: true }, Status::Exited { success: false }),
        Ok(status(true, false))
    );
    assert_eq!(
        check_service_status(Status::Exited { success: false }, Status::Exited { success: true }),
        Ok(status(false, true))
    );
    assert_eq!(
        check_service_status(Status::NotRun("a".to_string()), Status::NotRun("b".to_string())),
        Err(ServiceError::NotRun("a".to_string()))
    );
    assert_eq!(
        check_service_status(Status::Exited { success: true }, Status::NotRun("b".to_string())),
        Err(ServiceError::NotRun("b".to_string()))
    );
}

#[test]
fn systemctl_command_lines() {
    let q = is_enabled(&"sshd".to_string());
    assert_eq!(q.program, "systemctl");
    assert_eq!(q.args, names(&["is-enabled", "-q", "sshd"]));
    let q = is_active(&"sshd".to_string());
    assert_eq!(q.program, "systemctl");
    assert_eq!(q.args, names(&["is-active", "-q", "sshd"]));
    let p = systemctl_preset_all();
    assert_eq!(p.program, "systemctl");
    assert_eq!(p.args, names(&["preset-all"]));
    assert!(enable_services(&Vec::new(), true).is_none());
    let e = enable_services(&names(&["a", "b"]), true).unwrap();
    assert_eq!(e.program, "systemctl");
    assert_eq!(e.args, names(&["enable", "--now", "a", "b"]));
    let e = enable_services(&names(&["a"]), false).unwrap();
    assert_eq!(e.args, names(&["enable", "a"]));
}

#[test]
fn systemctl_status_maps_to_result() {
    assert_eq!(run_for_status(Status::Exited { success: true }), Ok(()));
    assert_eq!(run_for_status(Status::Exited { success: false }), Err(ServiceError::ExitFailure));
    assert_eq!(
        run_for_status(Status::NotRun("gone".to_string())),
        Err(ServiceError::NotRun("gone".to_string()))
    );
}

#[test]
fn services_str_counts() {
    assert_eq!(services_str(0), "services");
    assert_eq!(services_str(1), "service");
    assert_eq!(services_str(5), "services");
}

#[test]
fn link_and_copy_deeds() {
    for force in [false, true] {
        assert_eq!(create_link(Found::Nothing, LinkArgs { force }), Deed::Create);
        assert_eq!(create_link(Found::Same, LinkArgs { force }), Deed::Keep);
        assert_eq!(create_link(Found::Other, LinkArgs { force }), Deed::WarnOther);
        assert_eq!(create_copy(Found::Nothing, CopyArgs { force }), Deed::Create);
        assert_eq!(create_copy(Found::Same, CopyArgs { force }), Deed::Keep);
        assert_eq!(create_copy(Found::Other, CopyArgs { force }), Deed::WarnOther);
    }
    assert_eq!(create_link(Found::Different, LinkArgs { force: true }), Deed::Replace);
    assert_eq!(create_link(Found::Different, LinkArgs { force: false }), Deed::WarnDifferent);
    assert_eq!(create_copy(Found::Different, CopyArgs { force: true }), Deed::Replace);
    assert_eq!(create_copy(Found::Different, CopyArgs { force: false }), Deed::WarnDifferent);
}

#[test]
fn show_sections() {
    let none = ShowArgs {
        all: false,
        to_explicit: false,
        to_install: false,
        to_remove: false,
        unneeded: false,
    };
    let s = show_packages(none);
    assert!(!s.to_install && !s.to_explicit && !s.to_remove && !s.unneeded);
    let s = show_packages(ShowArgs { all: true, ..none });
    assert!(s.to_install && s.to_explicit && s.to_remove && s.unneeded);
    let s = show_packages(ShowArgs { to_remove: true, ..none });
    assert!(!s.to_install && !s.to_explicit && s.to_remove && !s.unneeded);
    let s = show_packages(ShowArgs { to_explicit: true, unneeded: true, ..none });
    assert!(!s.to_install && s.to_explicit && !s.to_remove && s.unneeded);
}

#[test]
fn decimal_agrees_with_std() {
    for n in [0usize, 1, 9, 10, 11, 99, 100, 101, 12345, 9876543210, usize::MAX] {
        assert_eq!(decimal(n), n.to_string());
    }
}

#[test]
fn summary_lines_are_aligned() {
    let installed = InstalledPackages {
        explicit: names(&["b", "d"]),
        dependencies: (0..120).map(|i| i.to_string()).collect(),
        unneeded: Vec::new(),
    };
    let organized = OrganizedPackages {
        to_install: names(&["a"]),
        to_mark_as_explicit: names(&["c"]),
        to_remove: names(&["d"]),
        unneeded: names(&[]),
    };
    let rows = summary(3, &installed, &organized);
    assert_eq!(
        rows,
        vec![
            ("declared", 3),
            ("installed", 122),
            ("  explicitly", 2),
            ("  as dependencies", 120),
            ("to install", 1),
            ("to mark as explicitly installed", 1),
            ("to remove", 1),
            ("unneeded", 0),
        ]
    );
    let expected: Vec<String> = rows
        .iter()
        .map(|&(what, n)| format!("  {what:what_width$} : {n:n_width$}", what = what, what_width = 31, n = n, n_width = 3))
        .collect();
    assert_eq!(print_summary(&rows), expected);
    assert_eq!(print_summary(&rows)[0], "  declared                        :   3");
    assert!(print_summary(&Vec::new()).is_empty());
}

#[test]
fn query_groups_keeps_declared_groups() {
    let listed = vec![
        ("gcc".to_string(), "base-devel".to_string()),
        ("xterm".to_string(), "xorg-apps".to_string()),
        ("make".to_string(), "base-devel".to_string()),
    ];
    assert_eq!(
        query_groups(&names(&["base-devel", "gnome"]), &listed),
        vec![
            ("gcc".to_string(), "base-devel".to_string()),
            ("make".to_string(), "base-devel".to_string()),
        ]
    );
    assert!(query_groups(&names(&[]), &listed).is_empty());
}

#[test]
fn enabling_messages() {
    assert_eq!(enabling_message(1, false), "Enabling 1 service");
    assert_eq!(enabling_message(2, false), "Enabling 2 services");
    assert_eq!(enabling_message(1, true), "Enabling and starting 1 service");
    assert_eq!(enabling_message(10, true), "Enabling and starting 10 services");
}

#[test]
fn package_lists_are_displayed() {
    assert_eq!(
        print_packages("Packages to install", &names(&[])),
        ("No packages to install".to_string(), Vec::new())
    );
    assert_eq!(
        print_packages("Unneeded packages", &names(&["liba", "libb"])),
        ("Unneeded packages:".to_string(), names(&["  liba", "  libb"]))
    );
}

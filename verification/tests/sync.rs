use archman::args::SyncArgs;
use archman::packages::OrganizedPackages;
use archman::command::{Output, Status};
use archman::pacman::{
    database, query, query_result, remove, run_for_status, sync, InstallReason, PacmanError,
    QueryFilter,
};
use archman::sync::{
    advance, begin, packages_str, packages_to_remove, remove_packages, synchronize_packages,
    tolerate, update_and_install_packages, update_database, Action, Progress,
};
use archman::text::{lines, str_lt};

fn names(list: &[&str]) -> Vec<String> {
    list.iter().map(|s| s.to_string()).collect()
}

fn organized(install: &[&str], mark: &[&str], remove: &[&str], unneeded: &[&str]) -> OrganizedPackages {
    OrganizedPackages {
        to_install: names(install),
        to_mark_as_explicit: names(mark),
        to_remove: names(remove),
        unneeded: names(unneeded),
    }
}

fn line(action: &Action) -> Vec<String> {
    let command = action.command();
    let mut words = vec![command.program];
    words.extend(command.args);
    words
}

#[test]
fn removal_scope_without_cleanup() {
    let plan = organized(&[], &[], &["d"], &["e"]);
    assert_eq!(packages_to_remove(&plan, false), names(&["d"]));
}

#[test]
fn removal_scope_with_cleanup() {
    let plan = organized(&[], &[], &["d"], &["e"]);
    assert_eq!(packages_to_remove(&plan, true), names(&["d", "e"]));
}

#[test]
fn schedule_runs_the_steps_in_order() {
    let plan = organized(&["a"], &["c"], &["d"], &["e"]);
    let args = SyncArgs { cleanup: true, no_upgrade: false, xkb_types: None };
    let actions = synchronize_packages(&args, &plan);
    let lines: Vec<Vec<String>> = actions.iter().map(line).collect();
    assert_eq!(
        lines,
        vec![
            names(&["sudo", "pacman", "--color=auto", "-D", "--asexplicit", "c"]),
            names(&["sudo", "pacman", "--color=auto", "-D", "--asdeps", "d"]),
            names(&["sudo", "pacman", "--color=auto", "-S", "-y", "-u", "a"]),
            names(&["sudo", "pacman", "--color=auto", "-R", "-s", "-u", "d", "e"]),
        ]
    );
}

#[test]
fn schedule_skips_steps_with_nothing_to_do() {
    let plan = organized(&[], &[], &[], &["e"]);
    let args = SyncArgs { cleanup: false, no_upgrade: true, xkb_types: None };
    let actions = synchronize_packages(&args, &plan);
    let lines: Vec<Vec<String>> = actions.iter().map(line).collect();
    assert_eq!(lines, vec![names(&["sudo", "pacman", "--color=auto", "-S", "-y"])]);
}

#[test]
fn update_database_marks_both_ways() {
    let plan = organized(&["a"], &["c", "f"], &["d"], &[]);
    let actions = update_database(&plan);
    assert_eq!(actions.len(), 2);
    match &actions[0] {
        Action::Database { install_reason, packages } => {
            assert_eq!(*install_reason, InstallReason::Explicit);
            assert_eq!(packages, &names(&["c", "f"]));
        }
        other => panic!("unexpected: {:?}", other),
    }
    match &actions[1] {
        Action::Database { install_reason, packages } => {
            assert_eq!(*install_reason, InstallReason::Dependency);
            assert_eq!(packages, &names(&["d"]));
        }
        other => panic!("unexpected: {:?}", other),
    }
    assert!(update_database(&organized(&["a"], &[], &[], &["e"])).is_empty());
}

#[test]
fn install_action_upgrades_unless_told_not_to() {
    match update_and_install_packages(false, &names(&["a"])) {
        Action::Sync { system_upgrade, packages } => {
            assert!(system_upgrade);
            assert_eq!(packages, names(&["a"]));
        }
        other => panic!("unexpected: {:?}", other),
    }
    match update_and_install_packages(true, &names(&[])) {
        Action::Sync { system_upgrade, packages } => {
            assert!(!system_upgrade);
            assert!(packages.is_empty());
        }
        other => panic!("unexpected: {:?}", other),
    }
}

#[test]
fn remove_packages_needs_a_package() {
    assert!(remove_packages(Vec::new()).is_none());
    match remove_packages(names(&["d"])) {
        Some(Action::Remove { packages }) => assert_eq!(packages, names(&["d"])),
        other => panic!("unexpected: {:?}", other),
    }
}

#[test]
fn tolerate_exit_failure_only() {
    assert!(matches!(tolerate(Ok(())), Ok(false)));
    assert!(matches!(tolerate(Err(PacmanError::ExitFailure)), Ok(true)));
    match tolerate(Err(PacmanError::IO("no such file".to_string()))) {
        Err(PacmanError::IO(reason)) => assert_eq!(reason, "no such file"),
        other => panic!("unexpected: {:?}", other),
    }
    match tolerate(Err(PacmanError::NonUtf8Output(vec![0xff]))) {
        Err(PacmanError::NonUtf8Output(bytes)) => assert_eq!(bytes, vec![0xff]),
        other => panic!("unexpected: {:?}", other),
    }
}

#[test]
fn packages_str_counts() {
    assert_eq!(packages_str(0), "packages");
    assert_eq!(packages_str(1), "package");
    assert_eq!(packages_str(2), "packages");
}

#[test]
fn pacman_command_lines() {
    let d = database(InstallReason::Dependency, &names(&["x", "y"]));
    assert_eq!(d.program, "sudo");
    assert_eq!(d.args, names(&["pacman", "--color=auto", "-D", "--asdeps", "x", "y"]));
    let d = database(InstallReason::Explicit, &names(&["x"]));
    assert_eq!(d.args, names(&["pacman", "--color=auto", "-D", "--asexplicit", "x"]));
    let s = sync(true, &names(&["x"]));
    assert_eq!(s.program, "sudo");
    assert_eq!(s.args, names(&["pacman", "--color=auto", "-S", "-y", "-u", "x"]));
    let s = sync(false, &names(&[]));
    assert_eq!(s.args, names(&["pacman", "--color=auto", "-S", "-y"]));
    let r = remove(&names(&["x", "y"]));
    assert_eq!(r.program, "sudo");
    assert_eq!(r.args, names(&["pacman", "--color=auto", "-R", "-s", "-u", "x", "y"]));
}

#[test]
fn pacman_query_flags() {
    let q = query(QueryFilter::default());
    assert_eq!(q.program, "pacman");
    assert_eq!(q.args, names(&["-Q", "-q", "-n"]));
    let q = query(QueryFilter {
        install_reason: Some(InstallReason::Explicit),
        unrequired: false,
        outdated: true,
    });
    assert_eq!(q.args, names(&["-Q", "-q", "-n", "-e", "-u"]));
    let q = query(QueryFilter {
        install_reason: Some(InstallReason::Dependency),
        unrequired: true,
        outdated: false,
    });
    assert_eq!(q.args, names(&["-Q", "-q", "-n", "-d", "-t"]));
}

#[test]
fn status_maps_to_result() {
    assert!(run_for_status(Status::Exited { success: true }).is_ok());
    assert!(matches!(
        run_for_status(Status::Exited { success: false }),
        Err(PacmanError::ExitFailure)
    ));
    match run_for_status(Status::NotRun("not found".to_string())) {
        Err(PacmanError::IO(reason)) => assert_eq!(reason, "not found"),
        other => panic!("unexpected: {:?}", other),
    }
}

#[test]
fn query_result_cases() {
    let ok = Output { success: true, stdout: b"vim\ngit\n".to_vec(), stderr: Vec::new() };
    assert_eq!(query_result(ok).unwrap(), names(&["vim", "git"]));
    let warned = Output { success: true, stdout: b"vim\n".to_vec(), stderr: b"warning".to_vec() };
    assert_eq!(query_result(warned).unwrap(), names(&["vim"]));
    let silent = Output { success: false, stdout: Vec::new(), stderr: Vec::new() };
    assert!(query_result(silent).unwrap().is_empty());
    let loud = Output { success: false, stdout: Vec::new(), stderr: b"error: x".to_vec() };
    assert!(matches!(query_result(loud), Err(PacmanError::ExitFailure)));
    let partial = Output { success: false, stdout: b"vim\n".to_vec(), stderr: Vec::new() };
    assert!(matches!(query_result(partial), Err(PacmanError::ExitFailure)));
    let garbled = Output { success: true, stdout: vec![b'a', 0xc3, 0x28], stderr: Vec::new() };
    match query_result(garbled) {
        Err(PacmanError::NonUtf8Output(bytes)) => assert_eq!(bytes, vec![b'a', 0xc3, 0x28]),
        other => panic!("unexpected: {:?}", other),
    }
    let accents = Output { success: true, stdout: "é\nü\n".as_bytes().to_vec(), stderr: Vec::new() };
    assert_eq!(query_result(accents).unwrap(), names(&["é", "ü"]));
}

#[test]
fn lines_agree_with_std() {
    for text in [
        "",
        "\n",
        "a",
        "a\n",
        "a\nb",
        "a\r\nb\r\n",
        "a\rb\n",
        "a\r",
        "\r\n",
        "\n\n",
        "a\n\nb\n",
        "\r\r\n",
        "héllo\r\nwörld",
        "x\n\r",
    ] {
        let expected: Vec<String> = text.lines().map(|l| l.to_string()).collect();
        assert_eq!(lines(text), expected, "for {:?}", text);
    }
}

#[test]
fn str_lt_agrees_with_std() {
    let words = ["", "a", "A", "ab", "b", "a-b", "a_b", "é", "z", "zz", "日本", "~"];
    for a in words {
        for b in words {
            assert_eq!(str_lt(a, b), a < b, "for {:?} and {:?}", a, b);
        }
    }
}

#[test]
fn progress_through_a_schedule() {
    assert_eq!(begin(0), Progress::Done);
    assert_eq!(begin(3), Progress::Next(0));
    assert_eq!(advance(0, 3, Ok(())), (Progress::Next(1), false));
    assert_eq!(advance(1, 3, Err(PacmanError::ExitFailure)), (Progress::Next(2), true));
    assert_eq!(advance(2, 3, Ok(())), (Progress::Done, false));
    assert_eq!(advance(2, 3, Err(PacmanError::ExitFailure)), (Progress::Done, true));
    assert_eq!(
        advance(0, 3, Err(PacmanError::IO("gone".to_string()))),
        (Progress::Failed(PacmanError::IO("gone".to_string())), false)
    );
    assert_eq!(
        advance(1, 3, Err(PacmanError::NonUtf8Output(vec![0xff]))),
        (Progress::Failed(PacmanError::NonUtf8Output(vec![0xff])), false)
    );
    assert_eq!(advance(usize::MAX, usize::MAX, Ok(())), (Progress::Done, false));
}

#[test]
fn announcements() {
    let say = |action: Action| action.announcement();
    assert_eq!(
        say(Action::Database { install_reason: InstallReason::Explicit, packages: names(&["a"]) }),
        "Marking 1 package as explicitly installed"
    );
    assert_eq!(
        say(Action::Database {
            install_reason: InstallReason::Explicit,
            packages: names(&["a", "b"]),
        }),
        "Marking 2 packages as explicitly installed"
    );
    assert_eq!(
        say(Action::Database { install_reason: InstallReason::Dependency, packages: names(&["a"]) }),
        "Marking 1 package as installed as dependency"
    );
    assert_eq!(
        say(Action::Database {
            install_reason: InstallReason::Dependency,
            packages: (0..12).map(|i| i.to_string()).collect(),
        }),
        "Marking 12 packages as installed as dependencies"
    );
    assert_eq!(
        say(Action::Sync { system_upgrade: true, packages: names(&[]) }),
        "Upgrading installed packages"
    );
    assert_eq!(
        say(Action::Sync { system_upgrade: false, packages: names(&[]) }),
        "Updating package databases"
    );
    assert_eq!(
        say(Action::Sync { system_upgrade: true, packages: names(&["a"]) }),
        "Upgrading installed packages and installing 1 new package"
    );
    assert_eq!(
        say(Action::Sync { system_upgrade: false, packages: names(&["a", "b", "c"]) }),
        "Updating package databases and installing 3 new packages"
    );
    assert_eq!(say(Action::Remove { packages: names(&["a", "b"]) }), "Removing 2 packages");
    assert_eq!(say(Action::Remove { packages: names(&["a"]) }), "Removing 1 package");
}

//! Synchronizing installed packages.
//!
//! The end goal is that the declared packages are all installed, and their
//! install reason is "explicitly installed". This is what is done, in this
//! order:
//! - mark declared packages that are installed as dependencies as
//!   explicitly installed
//! - mark explicitly installed packages that are not declared as installed
//!   as dependencies
//! - update packages and install declared packages that are not installed
//! - remove explicitly installed packages that are not declared
//! - if doing cleanup, also remove packages installed as dependencies that
//!   are not declared and not required by other packages
//!
//! The library says which commands these are and what follows from their
//! outcome; running them is left to the caller.

use vstd::prelude::*;
use vstd::string::*;
use crate::args::SyncArgs;
use crate::packages::OrganizedPackages;
use crate::command::{push_all, Invocation};
use crate::pacman::{database, remove, sync, InstallReason, PacmanError};
use crate::text::{decimal, decimal_text, names};

verus! {

/// One call of the package manager.
#[derive(Debug)]
pub enum Action {
    /// Set the install reason of the packages.
    Database { install_reason: InstallReason, packages: Vec<String> },
    /// Refresh the package databases and install the packages, with or
    /// without a system upgrade.
    Sync { system_upgrade: bool, packages: Vec<String> },
    /// Remove the packages, and the dependencies that nothing needs then.
    Remove { packages: Vec<String> },
}

/// One call of the package manager, with the packages as a list of names.
pub enum Step {
    Database { install_reason: InstallReason, packages: Seq<Seq<char>> },
    Sync { system_upgrade: bool, packages: Seq<Seq<char>> },
    Remove { packages: Seq<Seq<char>> },
}

impl View for Action {
    type V = Step;

    open spec fn view(&self) -> Step {
        match *self {
            Action::Database { install_reason, packages } => Step::Database {
                install_reason,
                packages: names(packages@),
            },
            Action::Sync { system_upgrade, packages } => Step::Sync {
                system_upgrade,
                packages: names(packages@),
            },
            Action::Remove { packages } => Step::Remove { packages: names(packages@) },
        }
    }
}

/// The steps of a list of actions.
pub open spec fn steps(actions: Seq<Action>) -> Seq<Step> {
    Seq::new(actions.len(), |i: int| actions[i]@)
}

/// The steps that set install reasons: the packages to mark as explicitly
/// installed, if there are any, then the packages to remove, marked as
/// dependencies, if there are any.
pub open spec fn database_steps(organized: OrganizedPackages) -> Seq<Step> {
    (if organized.to_mark_as_explicit@.len() > 0 {
        seq![
            Step::Database {
                install_reason: InstallReason::Explicit,
                packages: names(organized.to_mark_as_explicit@),
            },
        ]
    } else {
        seq![]
    }) + (if organized.to_remove@.len() > 0 {
        seq![
            Step::Database {
                install_reason: InstallReason::Dependency,
                packages: names(organized.to_remove@),
            },
        ]
    } else {
        seq![]
    })
}

/// The packages that are removed: those to remove, and with `cleanup` the
/// unneeded ones after them.
pub open spec fn removed(organized: OrganizedPackages, cleanup: bool) -> Seq<Seq<char>> {
    if cleanup {
        names(organized.to_remove@) + names(organized.unneeded@)
    } else {
        names(organized.to_remove@)
    }
}

/// The step that removes packages, if there is anything to remove.
pub open spec fn remove_steps(packages: Seq<Seq<char>>) -> Seq<Step> {
    if packages.len() > 0 {
        seq![Step::Remove { packages }]
    } else {
        seq![]
    }
}

/// All steps of a synchronization, in their order: install reasons, then
/// the update with the installation, then the removal.
pub open spec fn schedule(args: SyncArgs, organized: OrganizedPackages) -> Seq<Step> {
    database_steps(organized) + seq![
        Step::Sync { system_upgrade: !args.no_upgrade, packages: names(organized.to_install@) },
    ] + remove_steps(removed(organized, args.cleanup))
}

/// A copy of a list of names.
pub fn copy_names(list: &Vec<String>) -> (r: Vec<String>)
    ensures
        r@ == list@,
{
    let mut r: Vec<String> = Vec::new();
    push_all(&mut r, list);
    assert(r@ =~= list@);
    r
}

impl Action {
    /// The command that carries the action out.
    pub fn command(&self) -> (r: Invocation)
        ensures
            r.line() == match self@ {
                Step::Database { install_reason, packages } => seq![
                    "sudo"@,
                    "pacman"@,
                    "--color=auto"@,
                    "-D"@,
                    if install_reason == InstallReason::Explicit {
                        "--asexplicit"@
                    } else {
                        "--asdeps"@
                    },
                ] + packages,
                Step::Sync { system_upgrade, packages } => seq![
                    "sudo"@,
                    "pacman"@,
                    "--color=auto"@,
                    "-S"@,
                    "-y"@,
                ] + (if system_upgrade {
                    seq!["-u"@]
                } else {
                    seq![]
                }) + packages,
                Step::Remove { packages } => seq![
                    "sudo"@,
                    "pacman"@,
                    "--color=auto"@,
                    "-R"@,
                    "-s"@,
                    "-u"@,
                ] + packages,
            },
    {
        match self {
            Action::Database { install_reason, packages } => database(*install_reason, packages),
            Action::Sync { system_upgrade, packages } => sync(*system_upgrade, packages),
            Action::Remove { packages } => remove(packages),
        }
    }
}

/// "package" for one, "packages" for any other number.
pub open spec fn packages_text(count: nat) -> Seq<char> {
    if count == 1 {
        "package"@
    } else {
        "packages"@
    }
}

/// What is said before a step is taken.
pub open spec fn announcement_text(step: Step) -> Seq<char> {
    match step {
        Step::Database { install_reason: InstallReason::Explicit, packages } => "Marking "@
            + decimal_text(packages.len()) + " "@ + packages_text(packages.len())
            + " as explicitly installed"@,
        Step::Database { install_reason: InstallReason::Dependency, packages } => "Marking "@
            + decimal_text(packages.len()) + " "@ + packages_text(packages.len())
            + " as installed as "@ + (if packages.len() == 1 {
            "dependency"@
        } else {
            "dependencies"@
        }),
        Step::Sync { system_upgrade, packages } => (if system_upgrade {
            "Upgrading installed packages"@
        } else {
            "Updating package databases"@
        }) + (if packages.len() > 0 {
            " and installing "@ + decimal_text(packages.len()) + " new "@ + packages_text(
                packages.len(),
            )
        } else {
            seq![]
        }),
        Step::Remove { packages } => "Removing "@ + decimal_text(packages.len()) + " "@
            + packages_text(packages.len()),
    }
}

impl Action {
    /// What to say before the action is carried out.
    pub fn announcement(&self) -> (r: String)
        ensures
            r@ == announcement_text(self@),
    {
        match self {
            Action::Database { install_reason: InstallReason::Explicit, packages } => {
                let n = packages.len();
                let mut text = "Marking ".to_owned();
                text.append(decimal(n).as_str());
                text.append(" ");
                text.append(packages_str(n));
                text.append(" as explicitly installed");
                assert(text@ =~= announcement_text(self@));
                text
            },
            Action::Database { install_reason: InstallReason::Dependency, packages } => {
                let n = packages.len();
                let mut text = "Marking ".to_owned();
                text.append(decimal(n).as_str());
                text.append(" ");
                text.append(packages_str(n));
                text.append(" as installed as ");
                text.append(
                    if n == 1 {
                        "dependency"
                    } else {
                        "dependencies"
                    },
                );
                assert(text@ =~= announcement_text(self@));
                text
            },
            Action::Sync { system_upgrade, packages } => {
                let n = packages.len();
                let mut text = if *system_upgrade {
                    "Upgrading installed packages".to_owned()
                } else {
                    "Updating package databases".to_owned()
                };
                if n > 0 {
                    text.append(" and installing ");
                    text.append(decimal(n).as_str());
                    text.append(" new ");
                    text.append(packages_str(n));
                }
                assert(text@ =~= announcement_text(self@));
                text
            },
            Action::Remove { packages } => {
                let n = packages.len();
                let mut text = "Removing ".to_owned();
                text.append(decimal(n).as_str());
                text.append(" ");
                text.append(packages_str(n));
                assert(text@ =~= announcement_text(self@));
                text
            },
        }
    }
}

/// Updates the install reason of already installed packages: the actions
/// that do so.
pub fn update_database(organized: &OrganizedPackages) -> (r: Vec<Action>)
    ensures
        steps(r@) == database_steps(*organized),
{
    let mut actions: Vec<Action> = Vec::new();
    if !organized.to_mark_as_explicit.is_empty() {
        actions.push(
            Action::Database {
                install_reason: InstallReason::Explicit,
                packages: copy_names(&organized.to_mark_as_explicit),
            },
        );
    }
    if !organized.to_remove.is_empty() {
        actions.push(
            Action::Database {
                install_reason: InstallReason::Dependency,
                packages: copy_names(&organized.to_remove),
            },
        );
    }
    assert(steps(actions@) =~= database_steps(*organized));
    actions
}

/// Updates installed packages and installs new ones: the action that does
/// so. There is a system upgrade unless `no_upgrade` is set.
pub fn update_and_install_packages(no_upgrade: bool, to_install: &Vec<String>) -> (r: Action)
    ensures
        r@ == (Step::Sync { system_upgrade: !no_upgrade, packages: names(to_install@) }),
{
    Action::Sync { system_upgrade: !no_upgrade, packages: copy_names(to_install) }
}

/// The packages to hand to the removal: without `cleanup` the packages to
/// remove, with it the unneeded packages too, after them.
pub fn packages_to_remove(organized: &OrganizedPackages, cleanup: bool) -> (r: Vec<String>)
    ensures
        names(r@) == removed(*organized, cleanup),
        r@ == if cleanup {
            organized.to_remove@ + organized.unneeded@
        } else {
            organized.to_remove@
        },
{
    let mut packages = copy_names(&organized.to_remove);
    if cleanup {
        push_all(&mut packages, &organized.unneeded);
        assert(names(packages@) =~= names(organized.to_remove@) + names(organized.unneeded@));
    }
    packages
}

/// Recursively removes given packages, if they are not needed by other
/// packages: the action that does so, or none if there is no package.
pub fn remove_packages(to_remove: Vec<String>) -> (r: Option<Action>)
    ensures
        to_remove@.len() == 0 <==> r is None,
        r is Some ==> r.unwrap() == (Action::Remove { packages: to_remove }),
{
    if to_remove.is_empty() {
        return None;
    }
    Some(Action::Remove { packages: to_remove })
}

/// The calls of the package manager that synchronize the installed
/// packages with the declared ones, in the order in which they are to be
/// made.
pub fn synchronize_packages(args: &SyncArgs, organized: &OrganizedPackages) -> (r: Vec<Action>)
    ensures
        steps(r@) == schedule(*args, *organized),
{
    let mut actions = update_database(organized);
    let ghost marks = steps(actions@);
    actions.push(update_and_install_packages(args.no_upgrade, &organized.to_install));
    let ghost installed = steps(actions@);
    assert(installed =~= marks + seq![
        Step::Sync { system_upgrade: !args.no_upgrade, packages: names(organized.to_install@) },
    ]);
    match remove_packages(packages_to_remove(organized, args.cleanup)) {
        Some(action) => {
            actions.push(action);
            assert(steps(actions@) =~= installed + remove_steps(removed(*organized, args.cleanup)));
        },
        None => {
            assert(steps(actions@) =~= installed + remove_steps(removed(*organized, args.cleanup)));
        },
    }
    actions
}

/// What the outcome of one call means for the run. A call that succeeded
/// lets the run go on. One after which the package manager did not exit
/// successfully lets it go on too, with a warning: `pacman` does so in
/// several situations that are no failure. Any other error ends the run.
///
/// The result says whether to warn.
pub fn tolerate(outcome: Result<(), PacmanError>) -> (r: Result<bool, PacmanError>)
    ensures
        match outcome {
            Ok(_) => r == Ok::<bool, PacmanError>(false),
            Err(PacmanError::ExitFailure) => r == Ok::<bool, PacmanError>(true),
            Err(e) => r == Err::<bool, PacmanError>(e),
        },
{
    match outcome {
        Ok(_) => Ok(false),
        Err(PacmanError::ExitFailure) => Ok(true),
        Err(e) => Err(e),
    }
}

/// Where a synchronization stands.
#[derive(Debug, PartialEq, Eq)]
pub enum Progress {
    /// The action at this place of the schedule is to be carried out next.
    Next(usize),
    /// Every action of the schedule was carried out.
    Done,
    /// The run has ended on an error.
    Failed(PacmanError),
}

/// Where a synchronization of `total` actions stands before the first
/// action.
pub fn begin(total: usize) -> (r: Progress)
    ensures
        r == if total > 0 {
            Progress::Next(0)
        } else {
            Progress::Done
        },
{
    if total > 0 {
        Progress::Next(0)
    } else {
        Progress::Done
    }
}

/// Where a synchronization of `total` actions stands after the action at
/// place `at`, given the outcome of that action, and whether to warn.
///
/// After an outcome that is tolerated the next action follows, if there
/// is one; any other error ends the run.
pub fn advance(at: usize, total: usize, outcome: Result<(), PacmanError>) -> (r: (Progress, bool))
    ensures
        r.1 == (outcome == Err::<(), PacmanError>(PacmanError::ExitFailure)),
        r.0 == match outcome {
            Ok(_) | Err(PacmanError::ExitFailure) => if at + 1 < total {
                Progress::Next((at + 1) as usize)
            } else {
                Progress::Done
            },
            Err(e) => Progress::Failed(e),
        },
{
    match tolerate(outcome) {
        Ok(warn) => {
            if at < usize::MAX && at + 1 < total {
                (Progress::Next(at + 1), warn)
            } else {
                (Progress::Done, warn)
            }
        },
        Err(e) => (Progress::Failed(e), false),
    }
}

/// "package" for one, "packages" for any other number.
pub fn packages_str(count: usize) -> (r: &'static str)
    ensures
        r@ == packages_text(count as nat),
{
    if count == 1 {
        "package"
    } else {
        "packages"
    }
}

} // verus!

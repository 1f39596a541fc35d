//! Managing the state of systemd services: which commands to run, and
//! which services to enable given their state.

use vstd::prelude::*;
use vstd::string::*;
use crate::command::{push_all, Invocation, Status};
use crate::packages::sorted_list_of;
use crate::text::{decimal, decimal_text, insert_sorted, name_set, names, strictly_sorted};

verus! {

/// The state of a service.
#[derive(Clone, Copy, Debug, PartialEq, Eq)]
pub struct ServiceStatus {
    /// The service is set to run at every boot.
    pub enabled: bool,
    /// The service is currently running.
    pub active: bool,
}

/// Errors that can occur when trying to run `systemctl`.
#[derive(Debug, PartialEq, Eq)]
pub enum ServiceError {
    /// `systemctl` did not exit successfully.
    ExitFailure,
    /// `systemctl` could not be run; the text says why.
    NotRun(String),
}

/// Whether a service in this state is to be enabled: one that is not
/// enabled always; one that is enabled but not running only when services
/// are to be started.
pub open spec fn needs_enabling(status: ServiceStatus, start: bool) -> bool {
    !status.enabled || (!status.active && start)
}

/// Whether a service in this state is to be enabled.
pub fn should_enable(status: ServiceStatus, start: bool) -> (r: bool)
    ensures
        r == needs_enabling(status, start),
{
    match (status.enabled, status.active) {
        (false, _) => true,
        (true, true) => false,
        (true, false) => start,
    }
}

/// The names of the services of a list that are to be enabled.
pub open spec fn services_to_enable(
    declared: Seq<(String, ServiceStatus)>,
    start: bool,
) -> Set<Seq<char>> {
    Set::new(
        |name: Seq<char>|
            exists|i: int|
                0 <= i < declared.len() && (#[trigger] declared[i]).0@ == name && needs_enabling(
                    declared[i].1,
                    start,
                ),
    )
}

/// Finds the declared services that are to be enabled, given the state of
/// each. The result is sorted.
pub fn find_services_to_enable(declared: &Vec<(String, ServiceStatus)>, start: bool) -> (r: Vec<
    String,
>)
    ensures
        sorted_list_of(r@, services_to_enable(declared@, start)),
{
    let mut to_enable: Vec<String> = Vec::new();
    let mut i: usize = 0;
    assert(name_set(to_enable@) =~= services_to_enable(declared@.take(0), start));
    while i < declared.len()
        invariant
            i <= declared.len(),
            strictly_sorted(names(to_enable@)),
            name_set(to_enable@) == services_to_enable(declared@.take(i as int), start),
        decreases declared.len() - i,
    {
        let ghost before = name_set(to_enable@);
        if should_enable(declared[i].1, start) {
            insert_sorted(&mut to_enable, declared[i].0.clone());
        }
        proof {
            let head = declared@.take(i as int);
            let next = declared@.take(i + 1);
            assert(next[i as int] == declared@[i as int]);
            assert forall|name: Seq<char>|
                name_set(to_enable@).contains(name) <==> services_to_enable(next, start).contains(
                    name,
                ) by {
                if services_to_enable(head, start).contains(name) {
                    let j = choose|j: int|
                        0 <= j < head.len() && (#[trigger] head[j]).0@ == name && needs_enabling(
                            head[j].1,
                            start,
                        );
                    assert(next[j] == head[j]);
                }
                if services_to_enable(next, start).contains(name) {
                    let j = choose|j: int|
                        0 <= j < next.len() && (#[trigger] next[j]).0@ == name && needs_enabling(
                            next[j].1,
                            start,
                        );
                    if j < i {
                        assert(head[j] == next[j]);
                    }
                }
            }
            assert(name_set(to_enable@) =~= services_to_enable(next, start));
        }
        i += 1;
    }
    assert(declared@.take(declared.len() as int) =~= declared@);
    to_enable
}

/// The state of a service, from how `systemctl is-enabled` and `systemctl
/// is-active` ended: each says yes by exiting successfully. Where one of
/// them could not be run there is no state; the first one counts.
pub fn check_service_status(enabled: Status, active: Status) -> (r: Result<
    ServiceStatus,
    ServiceError,
>)
    ensures
        r == match (enabled, active) {
            (Status::NotRun(reason), _) => Err::<ServiceStatus, ServiceError>(
                ServiceError::NotRun(reason),
            ),
            (Status::Exited { success: _ }, Status::NotRun(reason)) => Err::<
                ServiceStatus,
                ServiceError,
            >(ServiceError::NotRun(reason)),
            (Status::Exited { success: e }, Status::Exited { success: a }) => Ok::<
                ServiceStatus,
                ServiceError,
            >(ServiceStatus { enabled: e, active: a }),
        },
{
    match enabled {
        Status::NotRun(reason) => Err(ServiceError::NotRun(reason)),
        Status::Exited { success: e } => match active {
            Status::NotRun(reason) => Err(ServiceError::NotRun(reason)),
            Status::Exited { success: a } => Ok(ServiceStatus { enabled: e, active: a }),
        },
    }
}

/// `systemctl` with a subcommand, quietly, about one service.
fn systemctl_query(subcommand: &str, service: &String) -> (r: Invocation)
    ensures
        r.line() == seq!["systemctl"@, subcommand@, "-q"@, service@],
{
    let mut args: Vec<String> = Vec::new();
    args.push(subcommand.to_owned());
    args.push("-q".to_owned());
    args.push(service.clone());
    let r = Invocation { program: "systemctl".to_owned(), args };
    assert(r.line() =~= seq!["systemctl"@, subcommand@, "-q"@, service@]);
    r
}

/// `systemctl is-enabled -q`: asks whether a service is set to run at
/// every boot.
pub fn is_enabled(service: &String) -> (r: Invocation)
    ensures
        r.line() == seq!["systemctl"@, "is-enabled"@, "-q"@, service@],
{
    systemctl_query("is-enabled", service)
}

/// `systemctl is-active -q`: asks whether a service is running.
pub fn is_active(service: &String) -> (r: Invocation)
    ensures
        r.line() == seq!["systemctl"@, "is-active"@, "-q"@, service@],
{
    systemctl_query("is-active", service)
}

/// `systemctl preset-all`: resets the enabled/disabled status of all
/// services to their defaults.
pub fn systemctl_preset_all() -> (r: Invocation)
    ensures
        r.line() == seq!["systemctl"@, "preset-all"@],
{
    let mut args: Vec<String> = Vec::new();
    args.push("preset-all".to_owned());
    let r = Invocation { program: "systemctl".to_owned(), args };
    assert(r.line() =~= seq!["systemctl"@, "preset-all"@]);
    r
}

/// `systemctl enable`: enables the services, and with `start` starts them
/// too (`--now`). Without a service there is nothing to run.
pub fn enable_services(services: &Vec<String>, start: bool) -> (r: Option<Invocation>)
    ensures
        r is None <==> services@.len() == 0,
        r is Some ==> r.unwrap().line() == seq!["systemctl"@, "enable"@] + (if start {
            seq!["--now"@]
        } else {
            seq![]
        }) + names(services@),
{
    if services.is_empty() {
        return None;
    }
    let mut args: Vec<String> = Vec::new();
    args.push("enable".to_owned());
    if start {
        args.push("--now".to_owned());
    }
    let ghost head = names(args@);
    assert(head =~= seq!["enable"@] + (if start {
        seq!["--now"@]
    } else {
        seq![]
    }));
    push_all(&mut args, services);
    let r = Invocation { program: "systemctl".to_owned(), args };
    assert(r.line() =~= seq!["systemctl"@, "enable"@] + (if start {
        seq!["--now"@]
    } else {
        seq![]
    }) + names(services@));
    Some(r)
}

/// "service" for one, "services" for any other number.
pub open spec fn services_text(count: nat) -> Seq<char> {
    if count == 1 {
        "service"@
    } else {
        "services"@
    }
}

/// What is said before `count` services are enabled.
pub open spec fn enabling_text(count: nat, start: bool) -> Seq<char> {
    (if start {
        "Enabling and starting "@
    } else {
        "Enabling "@
    }) + decimal_text(count) + " "@ + services_text(count)
}

/// What to say before `count` services are enabled, and with `start`
/// started.
pub fn enabling_message(count: usize, start: bool) -> (r: String)
    ensures
        r@ == enabling_text(count as nat, start),
{
    let mut text = if start {
        "Enabling and starting ".to_owned()
    } else {
        "Enabling ".to_owned()
    };
    text.append(decimal(count).as_str());
    text.append(" ");
    text.append(services_str(count));
    assert(text@ =~= enabling_text(count as nat, start));
    text
}

/// Maps how `systemctl` ended to a result: it is fine only if it ran and
/// exited successfully.
pub fn run_for_status(status: Status) -> (r: Result<(), ServiceError>)
    ensures
        r == match status {
            Status::Exited { success } => if success {
                Ok::<(), ServiceError>(())
            } else {
                Err::<(), ServiceError>(ServiceError::ExitFailure)
            },
            Status::NotRun(reason) => Err::<(), ServiceError>(ServiceError::NotRun(reason)),
        },
{
    match status {
        Status::Exited { success } => if success {
            Ok(())
        } else {
            Err(ServiceError::ExitFailure)
        },
        Status::NotRun(reason) => Err(ServiceError::NotRun(reason)),
    }
}

/// "service" for one, "services" for any other number.
pub fn services_str(count: usize) -> (r: &'static str)
    ensures
        r@ == services_text(count as nat),
{
    if count == 1 {
        "service"
    } else {
        "services"
    }
}

} // verus!

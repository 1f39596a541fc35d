//! Running `pacman`, the Arch Linux package manager: the command lines to
//! run, and what their outcome means.
//!
//! The functions here say which command is to be run for each `pacman`
//! subcommand and read what came back. Commands that require root
//! privileges are run with `sudo`.

use vstd::prelude::*;
use vstd::utf8::*;
use vstd::string::*;
use crate::command::{push_all, Invocation, Output, Status};
use crate::text::{lines, lines_of, names, split_whitespace, words_of};

verus! {

/// Errors that can occur when trying to run `pacman`.
#[derive(Debug, PartialEq, Eq)]
pub enum PacmanError {
    /// `pacman` did not exit successfully.
    ExitFailure,
    /// `pacman` output was not valid UTF-8.
    NonUtf8Output(Vec<u8>),
    /// `pacman` could not be run; the text says why.
    IO(String),
    /// A line of `pacman` output was not understood; this is the line.
    OutputParseError(String),
}

/// Filter for packages returned from a query.
#[derive(Clone, Copy, Debug)]
pub struct QueryFilter {
    /// Constrain the install reason.
    pub install_reason: Option<InstallReason>,
    /// Only packages not (optionally) required by any other package.
    pub unrequired: bool,
    /// Only outdated packages.
    pub outdated: bool,
}

impl Default for QueryFilter {
    fn default() -> (r: Self)
        ensures
            r.install_reason is None,
            !r.unrequired,
            !r.outdated,
    {
        QueryFilter { install_reason: None, unrequired: false, outdated: false }
    }
}

/// Install reason of a package.
#[derive(Clone, Copy, Debug, PartialEq, Eq)]
pub enum InstallReason {
    /// Explicitly installed.
    Explicit,
    /// Installed as a dependency of another package.
    Dependency,
}

/// `sudo pacman --color=auto` with one more word, the start of every
/// command that changes the system.
fn sudo_pacman(subcommand: &str) -> (r: Invocation)
    ensures
        r.line() == seq!["sudo"@, "pacman"@, "--color=auto"@, subcommand@],
{
    let mut args: Vec<String> = Vec::new();
    args.push("pacman".to_owned());
    args.push("--color=auto".to_owned());
    args.push(subcommand.to_owned());
    let r = Invocation { program: "sudo".to_owned(), args };
    assert(r.line() =~= seq!["sudo"@, "pacman"@, "--color=auto"@, subcommand@]);
    r
}

/// `pacman -D`: sets the install reason of `packages`.
pub fn database(install_reason: InstallReason, packages: &Vec<String>) -> (r: Invocation)
    ensures
        r.line() == seq![
            "sudo"@,
            "pacman"@,
            "--color=auto"@,
            "-D"@,
            if install_reason == InstallReason::Explicit {
                "--asexplicit"@
            } else {
                "--asdeps"@
            },
        ] + names(packages@),
{
    let mut r = sudo_pacman("-D");
    let ghost head = r.line();
    match install_reason {
        InstallReason::Explicit => r.args.push("--asexplicit".to_owned()),
        InstallReason::Dependency => r.args.push("--asdeps".to_owned()),
    }
    let ghost flagged = r.line();
    push_all(&mut r.args, packages);
    proof {
        let flag = if install_reason == InstallReason::Explicit {
            "--asexplicit"@
        } else {
            "--asdeps"@
        };
        assert(flagged =~= head.push(flag));
        assert(r.line() =~= flagged + names(packages@));
        assert(head.push(flag) =~= seq!["sudo"@, "pacman"@, "--color=auto"@, "-D"@, flag]);
    }
    r
}

/// `pacman -S -y`: refreshes the package databases and installs
/// `packages`; with `system_upgrade` it also updates outdated packages
/// (`-u`).
pub fn sync(system_upgrade: bool, packages: &Vec<String>) -> (r: Invocation)
    ensures
        r.line() == seq!["sudo"@, "pacman"@, "--color=auto"@, "-S"@, "-y"@] + (if system_upgrade {
            seq!["-u"@]
        } else {
            seq![]
        }) + names(packages@),
{
    let mut r = sudo_pacman("-S");
    let ghost head = r.line();
    r.args.push("-y".to_owned());
    let ghost refreshed = r.line();
    assert(refreshed =~= head.push("-y"@));
    if system_upgrade {
        r.args.push("-u".to_owned());
    }
    let ghost flagged = r.line();
    assert(flagged =~= refreshed + (if system_upgrade {
        seq!["-u"@]
    } else {
        seq![]
    }));
    push_all(&mut r.args, packages);
    assert(r.line() =~= flagged + names(packages@));
    assert(head.push("-y"@) =~= seq!["sudo"@, "pacman"@, "--color=auto"@, "-S"@, "-y"@]);
    r
}

/// `pacman -R -s -u`: removes `packages` and, recursively, the
/// dependencies that nothing else needs; a package that another one still
/// needs stays.
pub fn remove(packages: &Vec<String>) -> (r: Invocation)
    ensures
        r.line() == seq!["sudo"@, "pacman"@, "--color=auto"@, "-R"@, "-s"@, "-u"@] + names(
            packages@,
        ),
{
    let mut r = sudo_pacman("-R");
    let ghost head = r.line();
    r.args.push("-s".to_owned());
    r.args.push("-u".to_owned());
    let ghost flagged = r.line();
    assert(flagged =~= head.push("-s"@).push("-u"@));
    push_all(&mut r.args, packages);
    assert(r.line() =~= flagged + names(packages@));
    assert(head.push("-s"@).push("-u"@) =~= seq![
        "sudo"@,
        "pacman"@,
        "--color=auto"@,
        "-R"@,
        "-s"@,
        "-u"@,
    ]);
    r
}

/// The flags that a filter adds to a query, in their order.
pub open spec fn filter_flags(filter: QueryFilter) -> Seq<Seq<char>> {
    (match filter.install_reason {
        Some(InstallReason::Explicit) => seq!["-e"@],
        Some(InstallReason::Dependency) => seq!["-d"@],
        None => seq![],
    }) + (if filter.unrequired {
        seq!["-t"@]
    } else {
        seq![]
    }) + (if filter.outdated {
        seq!["-u"@]
    } else {
        seq![]
    })
}

/// `pacman -Q -q -n`: lists the names of the installed native packages
/// that pass the filter, one in a line.
pub fn query(filter: QueryFilter) -> (r: Invocation)
    ensures
        r.line() == seq!["pacman"@, "-Q"@, "-q"@, "-n"@] + filter_flags(filter),
{
    let mut args: Vec<String> = Vec::new();
    args.push("-Q".to_owned());
    args.push("-q".to_owned());
    args.push("-n".to_owned());
    let ghost head = names(args@);
    assert(head =~= seq!["-Q"@, "-q"@, "-n"@]);
    match filter.install_reason {
        Some(InstallReason::Explicit) => args.push("-e".to_owned()),
        Some(InstallReason::Dependency) => args.push("-d".to_owned()),
        None => {},
    }
    let ghost reasoned = names(args@);
    assert(reasoned =~= head + (match filter.install_reason {
        Some(InstallReason::Explicit) => seq!["-e"@],
        Some(InstallReason::Dependency) => seq!["-d"@],
        None => seq![],
    }));
    if filter.unrequired {
        args.push("-t".to_owned());
    }
    let ghost required = names(args@);
    assert(required =~= reasoned + (if filter.unrequired {
        seq!["-t"@]
    } else {
        seq![]
    }));
    if filter.outdated {
        args.push("-u".to_owned());
    }
    assert(names(args@) =~= required + (if filter.outdated {
        seq!["-u"@]
    } else {
        seq![]
    }));
    let r = Invocation { program: "pacman".to_owned(), args };
    assert(r.line() =~= seq!["pacman"@, "-Q"@, "-q"@, "-n"@] + filter_flags(filter));
    r
}

/// Maps how a command ended to a result: a command that ran and exited
/// successfully is fine, one that exited otherwise gives `ExitFailure`,
/// one that could not be run gives `IO` with the reason.
pub fn run_for_status(status: Status) -> (r: Result<(), PacmanError>)
    ensures
        match status {
            Status::Exited { success } => if success {
                r is Ok
            } else {
                r == Err::<(), PacmanError>(PacmanError::ExitFailure)
            },
            Status::NotRun(reason) => r == Err::<(), PacmanError>(PacmanError::IO(reason)),
        },
{
    match status {
        Status::Exited { success } => if success {
            Ok(())
        } else {
            Err(PacmanError::ExitFailure)
        },
        Status::NotRun(reason) => Err(PacmanError::IO(reason)),
    }
}

/// The text that `bytes` encode, by `std::str::from_utf8`.
///
/// Taken on trust: there is a text exactly if the bytes are valid UTF-8,
/// and its encoding is then those bytes.
#[verifier::external_body]
fn utf8_text(bytes: &[u8]) -> (r: Option<&str>)
    ensures
        r is Some <==> valid_utf8(bytes@),
        r is Some ==> encode_utf8(r.unwrap()@) == bytes@,
{
    match std::str::from_utf8(bytes) {
        Ok(text) => Some(text),
        Err(_) => None,
    }
}

/// Whether a query with this outcome counts as answered: it exited
/// successfully with output that is valid UTF-8, or it failed and printed
/// nothing on either stream.
pub open spec fn query_answered(output: Output) -> bool {
    if output.success {
        valid_utf8(output.stdout@)
    } else {
        output.stdout@.len() == 0 && output.stderr@.len() == 0
    }
}

/// The names that an answered query found: the lines of its output; none
/// if it failed.
pub open spec fn query_names(output: Output) -> Seq<Seq<char>> {
    if output.success {
        lines_of(decode_utf8(output.stdout@))
    } else {
        seq![]
    }
}

/// The error of a query that does not count as answered.
pub open spec fn query_error(output: Output) -> PacmanError {
    if output.success {
        PacmanError::NonUtf8Output(output.stdout)
    } else {
        PacmanError::ExitFailure
    }
}

/// The names that a query printed, one for each line of its output.
///
/// `pacman` exits with an error when the query has no results. That is no
/// error here: a query that failed and printed nothing, on either stream,
/// found nothing. One that failed and printed something gives
/// `ExitFailure`. Output of a successful query that is not valid UTF-8
/// gives `NonUtf8Output` with that output.
pub fn query_result(output: Output) -> (r: Result<Vec<String>, PacmanError>)
    ensures
        r is Ok <==> query_answered(output),
        r is Ok ==> names(r.unwrap()@) == query_names(output),
        r is Err ==> r.unwrap_err() == query_error(output),
{
    if output.success {
        match utf8_text(output.stdout.as_slice()) {
            Some(text) => {
                proof {
                    encode_utf8_decode_utf8(text@);
                }
                Ok(lines(text))
            },
            None => Err(PacmanError::NonUtf8Output(output.stdout)),
        }
    } else if output.stdout.len() == 0 && output.stderr.len() == 0 {
        let found: Vec<String> = Vec::new();
        assert(names(found@) =~= seq![]);
        Ok(found)
    } else {
        Err(PacmanError::ExitFailure)
    }
}

/// An installed package.
#[derive(Debug, PartialEq, Eq)]
pub struct Package {
    pub name: String,
    pub version: String,
}

/// Reads one line of a listing of packages with their versions: the name
/// and the version, with white space between them and nothing else.
pub fn parse_package(line: String) -> (r: Result<Package, PacmanError>)
    ensures
        match r {
            Ok(package) => {
                &&& words_of(line@).len() == 2
                &&& package.name@ == words_of(line@)[0]
                &&& package.version@ == words_of(line@)[1]
            },
            Err(e) => words_of(line@).len() != 2 && e == PacmanError::OutputParseError(line),
        },
{
    let mut words = split_whitespace(line.as_str());
    if words.len() != 2 {
        return Err(PacmanError::OutputParseError(line));
    }
    assert(names(words@)[0] == words@[0]@);
    assert(names(words@)[1] == words@[1]@);
    let version = words.pop().unwrap();
    let name = words.pop().unwrap();
    Ok(Package { name, version })
}

/// `pacman -S -g`: lists the packages of package groups, one line for
/// each package of each of `names`, the group's name and then the
/// package's. Without a group there is nothing to ask.
pub fn groups(names: &Vec<String>) -> (r: Option<Invocation>)
    ensures
        r is None <==> names@.len() == 0,
        r is Some ==> r.unwrap().line() == seq!["pacman"@, "-S"@, "-g"@] + crate::text::names(
            names@,
        ),
{
    if names.is_empty() {
        return None;
    }
    let mut args: Vec<String> = Vec::new();
    args.push("-S".to_owned());
    args.push("-g".to_owned());
    let ghost head = crate::text::names(args@);
    assert(head =~= seq!["-S"@, "-g"@]);
    push_all(&mut args, names);
    let r = Invocation { program: "pacman".to_owned(), args };
    assert(r.line() =~= seq!["pacman"@, "-S"@, "-g"@] + crate::text::names(names@));
    Some(r)
}

/// Line `i` is the first that does not consist of two words.
pub open spec fn first_unreadable(lines: Seq<Seq<char>>, i: int) -> bool {
    &&& 0 <= i < lines.len()
    &&& words_of(lines[i]).len() != 2
    &&& forall|j: int| 0 <= j < i ==> words_of(#[trigger] lines[j]).len() == 2
}

/// Reads a listing of groups with their packages: for every line the
/// package and its group, in this order. A listing that does not count as
/// answered gives its error. A line that is not a group's name followed
/// by a package's gives `OutputParseError` with the line; the first such
/// line counts.
pub fn groups_result(output: Output) -> (r: Result<Vec<(String, String)>, PacmanError>)
    ensures
        match r {
            Ok(pairs) => {
                &&& query_answered(output)
                &&& pairs@.len() == query_names(output).len()
                &&& forall|i: int|
                    0 <= i < pairs@.len() ==> {
                        &&& words_of(#[trigger] query_names(output)[i]).len() == 2
                        &&& pairs@[i].0@ == words_of(query_names(output)[i])[1]
                        &&& pairs@[i].1@ == words_of(query_names(output)[i])[0]
                    }
            },
            Err(e) => if !query_answered(output) {
                e == query_error(output)
            } else {
                exists|i: int|
                    #![trigger query_names(output)[i]]
                    first_unreadable(query_names(output), i) && e is OutputParseError && e->OutputParseError_0@
                        == query_names(output)[i]
            },
        },
{
    let listed = match query_result(output) {
        Ok(listed) => listed,
        Err(e) => {
            return Err(e);
        },
    };
    let ghost all = names(listed@);
    let mut pairs: Vec<(String, String)> = Vec::new();
    let n = listed.len();
    let mut i: usize = 0;
    while i < n
        invariant
            i <= n,
            n == listed@.len(),
            all == names(listed@),
            all == query_names(output),
            query_answered(output),
            pairs@.len() == i,
            forall|j: int|
                0 <= j < i ==> {
                    &&& words_of(#[trigger] all[j]).len() == 2
                    &&& pairs@[j].0@ == words_of(all[j])[1]
                    &&& pairs@[j].1@ == words_of(all[j])[0]
                },
        decreases n - i,
    {
        assert(all[i as int] == listed@[i as int]@);
        let mut words = split_whitespace(listed[i].as_str());
        if words.len() != 2 {
            let line = listed[i].clone();
            assert(first_unreadable(all, i as int));
            assert(line@ == query_names(output)[i as int]);
            return Err(PacmanError::OutputParseError(line));
        }
        assert(names(words@)[0] == words@[0]@);
        assert(names(words@)[1] == words@[1]@);
        let package = words.pop().unwrap();
        let group = words.pop().unwrap();
        pairs.push((package, group));
        i += 1;
    }
    Ok(pairs)
}

} // verus!

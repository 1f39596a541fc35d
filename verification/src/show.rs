//! Displaying information about declared and currently installed packages:
//! what to display, and the lines of the summary.

use vstd::prelude::*;
use vstd::string::*;
use crate::args::ShowArgs;
use crate::packages::{InstalledPackages, OrganizedPackages};
use crate::text::{decimal, decimal_text, names};

verus! {

/// Which lists of packages to display.
#[derive(Clone, Copy, Debug, PartialEq, Eq)]
pub struct Sections {
    pub to_install: bool,
    pub to_explicit: bool,
    pub to_remove: bool,
    pub unneeded: bool,
}

/// The lists to display after the summary: each one that was asked for,
/// and with `all` every one.
pub fn show_packages(args: ShowArgs) -> (r: Sections)
    ensures
        r.to_install == (args.all || args.to_install),
        r.to_explicit == (args.all || args.to_explicit),
        r.to_remove == (args.all || args.to_remove),
        r.unneeded == (args.all || args.unneeded),
{
    Sections {
        to_install: args.all || args.to_install,
        to_explicit: args.all || args.to_explicit,
        to_remove: args.all || args.to_remove,
        unneeded: args.all || args.unneeded,
    }
}

/// That many spaces.
pub open spec fn spaces(n: int) -> Seq<char> {
    Seq::new(
        if n > 0 {
            n as nat
        } else {
            0
        },
        |i: int| ' ',
    )
}

/// One line of the summary: after two spaces the label, filled up with
/// spaces to `what_width`, then a colon between spaces, then the number,
/// with spaces before it up to `n_width`.
pub open spec fn row_text(what: Seq<char>, n: nat, what_width: nat, n_width: nat) -> Seq<char> {
    seq![' ', ' '] + what + spaces(what_width - what.len()) + seq![' ', ':', ' '] + spaces(
        n_width - decimal_text(n).len(),
    ) + decimal_text(n)
}

/// The rows of the summary: what is counted, and the count.
pub open spec fn summary_rows(
    declared: nat,
    installed: InstalledPackages,
    organized: OrganizedPackages,
) -> Seq<(Seq<char>, nat)> {
    seq![
        ("declared"@, declared),
        ("installed"@, installed.explicit@.len() + installed.dependencies@.len()),
        ("  explicitly"@, installed.explicit@.len()),
        ("  as dependencies"@, installed.dependencies@.len()),
        ("to install"@, organized.to_install@.len()),
        ("to mark as explicitly installed"@, organized.to_mark_as_explicit@.len()),
        ("to remove"@, organized.to_remove@.len()),
        ("unneeded"@, organized.unneeded@.len()),
    ]
}

/// The rows of a list, as texts and numbers.
pub open spec fn rows_of(rows: Seq<(&'static str, usize)>) -> Seq<(Seq<char>, nat)> {
    Seq::new(rows.len(), |i: int| (rows[i].0@, rows[i].1 as nat))
}

/// The greatest length of a label in the first `k` rows.
pub open spec fn what_width(rows: Seq<(Seq<char>, nat)>, k: nat) -> nat
    decreases k,
{
    if k == 0 || k > rows.len() {
        0
    } else {
        let rest = what_width(rows, (k - 1) as nat);
        if rows[k - 1].0.len() > rest {
            rows[k - 1].0.len()
        } else {
            rest
        }
    }
}

/// The greatest number of digits of a count in the first `k` rows.
pub open spec fn n_width(rows: Seq<(Seq<char>, nat)>, k: nat) -> nat
    decreases k,
{
    if k == 0 || k > rows.len() {
        0
    } else {
        let rest = n_width(rows, (k - 1) as nat);
        if decimal_text(rows[k - 1].1).len() > rest {
            decimal_text(rows[k - 1].1).len()
        } else {
            rest
        }
    }
}

/// The lines for a list of rows: every label filled up to the longest
/// one, every count to the longest one.
pub open spec fn summary_text(rows: Seq<(Seq<char>, nat)>) -> Seq<Seq<char>> {
    Seq::new(
        rows.len(),
        |i: int|
            row_text(
                rows[i].0,
                rows[i].1,
                what_width(rows, rows.len()),
                n_width(rows, rows.len()),
            ),
    )
}

/// Appends `n` spaces to a text.
fn pad(text: &mut String, n: usize)
    ensures
        final(text)@ == old(text)@ + spaces(n as int),
{
    proof {
        reveal_strlit(" ");
    }
    let mut i: usize = 0;
    assert(text@ =~= old(text)@ + spaces(0));
    while i < n
        invariant
            i <= n,
            " "@ == seq![' '],
            text@ == old(text)@ + spaces(i as int),
        decreases n - i,
    {
        text.append(" ");
        i += 1;
        assert(text@ =~= old(text)@ + spaces(i as int));
    }
}

/// The rows of the summary: what is counted, and the count.
pub fn summary(declared: usize, installed: &InstalledPackages, organized: &OrganizedPackages) -> (r:
    Vec<(&'static str, usize)>)
    requires
        installed.explicit@.len() + installed.dependencies@.len() <= usize::MAX,
    ensures
        rows_of(r@) == summary_rows(declared as nat, *installed, *organized),
{
    let mut rows: Vec<(&'static str, usize)> = Vec::new();
    rows.push(("declared", declared));
    rows.push(("installed", installed.explicit.len() + installed.dependencies.len()));
    rows.push(("  explicitly", installed.explicit.len()));
    rows.push(("  as dependencies", installed.dependencies.len()));
    rows.push(("to install", organized.to_install.len()));
    rows.push(("to mark as explicitly installed", organized.to_mark_as_explicit.len()));
    rows.push(("to remove", organized.to_remove.len()));
    rows.push(("unneeded", organized.unneeded.len()));
    assert(rows_of(rows@) =~= summary_rows(declared as nat, *installed, *organized));
    rows
}

/// The lines that display a list of rows, the labels in one column and the
/// counts in another.
pub fn print_summary(rows: &Vec<(&'static str, usize)>) -> (r: Vec<String>)
    ensures
        names(r@) == summary_text(rows_of(rows@)),
{
    let ghost all = rows_of(rows@);
    let mut width: usize = 0;
    let mut digits: usize = 0;
    let mut i: usize = 0;
    while i < rows.len()
        invariant
            i <= rows.len(),
            all == rows_of(rows@),
            width == what_width(all, i as nat),
            digits == n_width(all, i as nat),
        decreases rows.len() - i,
    {
        let w = rows[i].0.unicode_len();
        if w > width {
            width = w;
        }
        let d = decimal(rows[i].1).as_str().unicode_len();
        if d > digits {
            digits = d;
        }
        i += 1;
    }
    let mut out: Vec<String> = Vec::new();
    let mut i: usize = 0;
    while i < rows.len()
        invariant
            i <= rows.len(),
            all == rows_of(rows@),
            width == what_width(all, rows.len() as nat),
            digits == n_width(all, rows.len() as nat),
            names(out@) == summary_text(all).take(i as int),
        decreases rows.len() - i,
    {
        proof {
            reveal_strlit("  ");
            reveal_strlit(" : ");
            lemma_widths_bound(all, rows.len() as nat, i as int);
        }
        let what = rows[i].0;
        let number = decimal(rows[i].1);
        let mut line = "  ".to_owned();
        line.append(what);
        pad(&mut line, width - what.unicode_len());
        line.append(" : ");
        pad(&mut line, digits - number.as_str().unicode_len());
        line.append(number.as_str());
        proof {
            assert("  "@ =~= seq![' ', ' ']);
            assert(" : "@ =~= seq![' ', ':', ' ']);
            assert(line@ =~= row_text(all[i as int].0, all[i as int].1, width as nat, digits as nat));
        }
        let ghost before = names(out@);
        out.push(line);
        proof {
            assert(names(out@) =~= before.push(line@));
            assert(summary_text(all)[i as int] == line@);
            assert(summary_text(all).take(i + 1) =~= summary_text(all).take(i as int).push(
                line@,
            ));
        }
        i += 1;
    }
    assert(summary_text(all).take(rows.len() as int) =~= summary_text(all));
    out
}

/// No label and no count of the first `k` rows is longer than the widths
/// of those rows.
proof fn lemma_widths_bound(rows: Seq<(Seq<char>, nat)>, k: nat, i: int)
    requires
        0 <= i < k <= rows.len(),
    ensures
        rows[i].0.len() <= what_width(rows, k),
        decimal_text(rows[i].1).len() <= n_width(rows, k),
    decreases k,
{
    if i < k - 1 {
        lemma_widths_bound(rows, (k - 1) as nat, i);
    }
}

/// The text `s` in lower case, as `str::to_lowercase` gives it.
pub uninterp spec fn lowercase(s: Seq<char>) -> Seq<char>;

/// Asks `str::to_lowercase` for the text in lower case.
///
/// Taken on trust: the result depends on the text alone.
#[verifier::external_body]
fn to_lowercase(s: &str) -> (r: String)
    ensures
        r@ == lowercase(s@),
{
    s.to_lowercase()
}

/// The heading of a list of packages: for an empty list `No` and what the
/// list is in lower case, else what the list is and a colon.
pub open spec fn heading(what: Seq<char>, count: nat) -> Seq<char> {
    if count == 0 {
        seq!['N', 'o', ' '] + lowercase(what)
    } else {
        what + seq![':']
    }
}

/// The lines that display a list of packages, after its heading: each
/// package after two spaces.
pub open spec fn package_lines(packages: Seq<Seq<char>>) -> Seq<Seq<char>> {
    Seq::new(packages.len(), |i: int| seq![' ', ' '] + packages[i])
}

/// Displays a list of packages: its heading, and a line for each package.
pub fn print_packages(what: &str, packages: &Vec<String>) -> (r: (String, Vec<String>))
    ensures
        r.0@ == heading(what@, packages@.len()),
        names(r.1@) == package_lines(names(packages@)),
{
    proof {
        reveal_strlit("No ");
        reveal_strlit(":");
        reveal_strlit("  ");
    }
    let head = if packages.is_empty() {
        let mut head = "No ".to_owned();
        head.append(to_lowercase(what).as_str());
        assert(head@ =~= heading(what@, 0));
        head
    } else {
        let mut head = what.to_owned();
        head.append(":");
        assert(head@ =~= heading(what@, packages@.len()));
        head
    };
    let mut lines: Vec<String> = Vec::new();
    let mut i: usize = 0;
    while i < packages.len()
        invariant
            i <= packages.len(),
            "  "@ == seq![' ', ' '],
            names(lines@) == package_lines(names(packages@)).take(i as int),
        decreases packages.len() - i,
    {
        let mut line = "  ".to_owned();
        line.append(packages[i].as_str());
        let ghost before = names(lines@);
        lines.push(line);
        proof {
            assert(names(lines@) =~= before.push(line@));
            assert(line@ =~= package_lines(names(packages@))[i as int]);
            assert(package_lines(names(packages@)).take(i + 1) =~= package_lines(
                names(packages@),
            ).take(i as int).push(line@));
        }
        i += 1;
    }
    assert(package_lines(names(packages@)).take(packages.len() as int) =~= package_lines(
        names(packages@),
    ));
    (head, lines)
}

} // verus!

//! A list of packages as a plain text file.
//!
//! In the file any occurrence of the `#` character starts a comment that
//! lasts until the end of the line. After comments are ignored, the file
//! is read as a white space separated list of package names.

use vstd::prelude::*;
use vstd::string::*;
use crate::command::push_all;
use crate::text::{
    find_from, first_char, lines, lines_of, names, slice_of, split_whitespace, words_of,
};

verus! {

/// A line without its comment: what stands before the first `#`.
pub open spec fn without_comment(line: Seq<char>) -> Seq<char> {
    line.subrange(0, first_char(line, '#'))
}

/// The package names that a list of lines holds, in their order.
pub open spec fn names_in_lines(lines: Seq<Seq<char>>) -> Seq<Seq<char>>
    decreases lines.len(),
{
    if lines.len() == 0 {
        seq![]
    } else {
        names_in_lines(lines.drop_last()) + words_of(without_comment(lines.last()))
    }
}

/// Reads the declared packages from the contents of a packages file, in
/// the order in which the file names them.
pub fn parse_package_file(contents: &str) -> (r: Vec<String>)
    ensures
        names(r@) == names_in_lines(lines_of(contents@)),
{
    let all = lines(contents);
    let mut packages: Vec<String> = Vec::new();
    let mut i: usize = 0;
    assert(names(packages@) =~= names_in_lines(names(all@).take(0)));
    while i < all.len()
        invariant
            i <= all.len(),
            names(packages@) == names_in_lines(names(all@).take(i as int)),
        decreases all.len() - i,
    {
        let line = all[i].as_str();
        let ascii = line.is_ascii();
        let end = find_from(line, ascii, 0, '#');
        let words = split_whitespace(slice_of(line, ascii, 0, end));
        let ghost before = packages@;
        push_all(&mut packages, &words);
        proof {
            assert(line@.skip(0) =~= line@);
            assert(names(all@).take(i + 1).drop_last() =~= names(all@).take(i as int));
            assert(names(all@).take(i + 1).last() == line@);
            assert(names(packages@) =~= names(before) + names(words@));
        }
        i += 1;
    }
    assert(names(all@).take(all.len() as int) =~= names(all@));
    packages
}

} // verus!

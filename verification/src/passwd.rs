//! Finding a user's home directory in the contents of a passwd file.

use vstd::prelude::*;

verus! {

/// Why no home directory was found.
#[derive(Debug, PartialEq, Eq)]
pub enum PasswdError {
    /// The line of the user has no field for the home directory.
    NoHomeDirectory,
    /// No line of the file is about the user.
    UserNotFound,
}

/// The place of the first `sep` in `s`, or the length of `s` if it holds
/// none.
pub open spec fn first_sep(s: Seq<u8>, sep: u8) -> int
    decreases s.len(),
{
    if s.len() == 0 || s[0] == sep {
        0
    } else {
        1 + first_sep(s.drop_first(), sep)
    }
}

/// The pieces of `s` between the occurrences of `sep`. There is always at
/// least one piece; pieces can be empty.
pub open spec fn split(s: Seq<u8>, sep: u8) -> Seq<Seq<u8>>
    decreases s.len(),
{
    let n = first_sep(s, sep);
    if n < 0 || n >= s.len() {
        seq![s]
    } else {
        seq![s.take(n)] + split(s.skip(n + 1), sep)
    }
}

/// The home directory that the first line about `user` gives: its sixth
/// field, where the first field is the login name.
pub open spec fn home_in_lines(lines: Seq<Seq<u8>>, user: Seq<u8>) -> Result<Seq<u8>, PasswdError>
    decreases lines.len(),
{
    if lines.len() == 0 {
        Err(PasswdError::UserNotFound)
    } else {
        let fields = split(lines[0], 0x3a);
        if fields[0] == user {
            if fields.len() > 5 {
                Ok(fields[5])
            } else {
                Err(PasswdError::NoHomeDirectory)
            }
        } else {
            home_in_lines(lines.drop_first(), user)
        }
    }
}

/// The home directory of `user` according to the contents of a passwd
/// file: the lines are split at line feeds, the fields at colons.
pub open spec fn home_in_passwd(contents: Seq<u8>, user: Seq<u8>) -> Result<Seq<u8>, PasswdError> {
    home_in_lines(split(contents, 0x0a), user)
}

/// The byte strings of a list.
pub open spec fn rows(v: Seq<Vec<u8>>) -> Seq<Seq<u8>> {
    Seq::new(v.len(), |i: int| v[i]@)
}

/// The first `sep` stands at `k` if it stands there and nowhere before.
proof fn lemma_first_sep(s: Seq<u8>, sep: u8, k: int)
    requires
        0 <= k <= s.len(),
        forall|j: int| 0 <= j < k ==> s[j] != sep,
        k == s.len() || s[k] == sep,
    ensures
        first_sep(s, sep) == k,
    decreases k,
{
    if k > 0 {
        let rest = s.drop_first();
        assert forall|j: int| 0 <= j < k - 1 implies rest[j] != sep by {
            assert(rest[j] == s[j + 1]);
        }
        lemma_first_sep(rest, sep, k - 1);
    }
}

/// Splits `s` at every occurrence of `sep`.
pub fn split_bytes(s: &[u8], sep: u8) -> (r: Vec<Vec<u8>>)
    ensures
        rows(r@) == split(s@, sep),
        r@.len() >= 1,
{
    let n = s.len();
    let mut out: Vec<Vec<u8>> = Vec::new();
    let mut start: usize = 0;
    assert(s@.skip(0) =~= s@);
    assert(rows(out@) + split(s@, sep) =~= split(s@, sep));
    loop
        invariant_except_break
            split(s@, sep) == rows(out@) + split(s@.skip(start as int), sep),
        invariant
            start <= n,
            n == s@.len(),
        ensures
            rows(out@) == split(s@, sep),
            out@.len() >= 1,
        decreases n - start,
    {
        let mut piece: Vec<u8> = Vec::new();
        let mut end = start;
        while end < n && s[end] != sep
            invariant
                start <= end <= n,
                n == s@.len(),
                piece@ == s@.subrange(start as int, end as int),
                forall|j: int| start <= j < end ==> s@[j] != sep,
            decreases n - end,
        {
            piece.push(s[end]);
            end += 1;
            assert(piece@ =~= s@.subrange(start as int, end as int));
        }
        let ghost rest = s@.skip(start as int);
        let ghost before = rows(out@);
        proof {
            assert forall|j: int| 0 <= j < end - start implies rest[j] != sep by {
                assert(rest[j] == s@[start + j]);
            }
            lemma_first_sep(rest, sep, end - start);
        }
        out.push(piece);
        assert(rows(out@) =~= before.push(piece@));
        if end < n {
            proof {
                assert(rest.take(end - start) =~= piece@);
                assert(rest.skip(end - start + 1) =~= s@.skip(end + 1));
                assert(before.push(piece@) + split(s@.skip(end + 1), sep) =~= before + (seq![
                    piece@,
                ] + split(s@.skip(end + 1), sep)));
            }
            start = end + 1;
        } else {
            proof {
                assert(piece@ =~= rest);
                assert(before.push(piece@) =~= before + seq![rest]);
            }
            break ;
        }
    }
    out
}

/// Whether two byte strings are the same.
pub fn same_bytes(a: &[u8], b: &[u8]) -> (r: bool)
    ensures
        r == (a@ == b@),
{
    if a.len() != b.len() {
        return false;
    }
    let mut i: usize = 0;
    while i < a.len()
        invariant
            i <= a.len(),
            a@.len() == b@.len(),
            forall|j: int| 0 <= j < i ==> a@[j] == b@[j],
        decreases a.len() - i,
    {
        if a[i] != b[i] {
            return false;
        }
        i += 1;
    }
    assert(a@ =~= b@);
    true
}

/// Parses the contents of the passwd file and returns the path to the home
/// directory of the user with the given login name.
///
/// The first line whose login name is `user` decides: its sixth field is
/// the home directory, and without such a field there is none.
pub fn find_home_in_passwd_file(user: &[u8], contents: &[u8]) -> (r: Result<Vec<u8>, PasswdError>)
    ensures
        match home_in_passwd(contents@, user@) {
            Ok(home) => r is Ok && r.unwrap()@ == home,
            Err(e) => r == Err::<Vec<u8>, PasswdError>(e),
        },
{
    let lines = split_bytes(contents, 0x0a);
    let mut i: usize = 0;
    assert(rows(lines@).skip(0) =~= rows(lines@));
    while i < lines.len()
        invariant
            i <= lines.len(),
            home_in_passwd(contents@, user@) == home_in_lines(
                rows(lines@).skip(i as int),
                user@,
            ),
        decreases lines.len() - i,
    {
        let mut fields = split_bytes(lines[i].as_slice(), 0x3a);
        assert(rows(lines@).skip(i as int)[0] == lines@[i as int]@);
        assert(rows(lines@).skip(i as int).drop_first() =~= rows(lines@).skip(i + 1));
        assert(rows(fields@)[0] == fields@[0]@);
        if same_bytes(fields[0].as_slice(), user) {
            if fields.len() > 5 {
                assert(rows(fields@)[5] == fields@[5]@);
                return Ok(fields.swap_remove(5));
            } else {
                return Err(PasswdError::NoHomeDirectory);
            }
        }
        i += 1;
    }
    Err(PasswdError::UserNotFound)
}

} // verus!

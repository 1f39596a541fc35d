//! Creating links to and copies of configuration files: what to do about
//! one declared link or copy, given what is found at its location.

use vstd::prelude::*;
use crate::args::{CopyArgs, LinkArgs};

verus! {

/// What is found at the location of a declared link or copy.
#[derive(Clone, Copy, Debug, PartialEq, Eq)]
pub enum Found {
    /// Nothing is there.
    Nothing,
    /// What is declared is there already: a link to the declared target,
    /// or a regular file with the contents of the original.
    Same,
    /// A link to another target is there, or a regular file with other
    /// contents.
    Different,
    /// Something of another kind is there.
    Other,
}

/// What to do about a declared link or copy.
#[derive(Clone, Copy, Debug, PartialEq, Eq)]
pub enum Deed {
    /// Create the parent directory if need be, then the link or the copy.
    Create,
    /// Put the declared link or copy in the place of what is there.
    Replace,
    /// Leave it: what is declared is there already.
    Keep,
    /// Leave it and warn that what is there differs from what is declared.
    WarnDifferent,
    /// Leave it and warn that something of another kind is there.
    WarnOther,
}

/// What to do given what was found; `overwrite` allows replacing a link or
/// a file that differs.
pub open spec fn deed_for(found: Found, overwrite: bool) -> Deed {
    match found {
        Found::Nothing => Deed::Create,
        Found::Same => Deed::Keep,
        Found::Different => if overwrite {
            Deed::Replace
        } else {
            Deed::WarnDifferent
        },
        Found::Other => Deed::WarnOther,
    }
}

/// What to do about a declared link, given what is found at its location.
pub fn create_link(found: Found, args: LinkArgs) -> (r: Deed)
    ensures
        r == deed_for(found, args.force),
{
    match found {
        Found::Nothing => Deed::Create,
        Found::Same => Deed::Keep,
        Found::Different => if args.force {
            Deed::Replace
        } else {
            Deed::WarnDifferent
        },
        Found::Other => Deed::WarnOther,
    }
}

/// What to do about a declared copy, given what is found at its location.
pub fn create_copy(found: Found, args: CopyArgs) -> (r: Deed)
    ensures
        r == deed_for(found, args.force),
{
    match found {
        Found::Nothing => Deed::Create,
        Found::Same => Deed::Keep,
        Found::Different => if args.force {
            Deed::Replace
        } else {
            Deed::WarnDifferent
        },
        Found::Other => Deed::WarnOther,
    }
}

} // verus!

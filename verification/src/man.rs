//! Data for the generated manual pages: a worked example shown in its
//! EXAMPLES section.

use vstd::prelude::*;

verus! {

/// One example of a manual page: a title line and the command it shows.
pub struct ManExample<'a> {
    pub title: &'a str,
    pub example: &'a str,
}

} // verus!

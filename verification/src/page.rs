//! The pages a front end can show. Navigation state is presentation-only:
//! it never lives inside `Society` or `Game`.

use vstd::prelude::*;

verus! {

/// Which view a front end shows: the dashboard, or the detail page of the
/// group at the given index in the society's group list.
#[derive(Clone, Copy, PartialEq, Eq, Structural, Debug)]
pub enum Page {
    Dashboard,
    GroupDetail(usize),
}

} // verus!

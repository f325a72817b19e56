//! Domain model for a small sprint-planning tool: roles, team members,
//! features with objectives and stories, and additive capacity buckets.
//!
//! The registry keeps every collection in insertion order and looks entities
//! up by name (first match). Numeric quantities such as a role's velocity are
//! held as non-negative fixed-point values in thousandths, parsed from the
//! decimal text a form hands in; invalid text is reported as a validation
//! error instead of aborting.

use vstd::prelude::*;

pub mod capacity;
pub mod entities;
pub mod fixed;
pub mod registry;

verus! {

/// Failures reported by the domain registry.
#[derive(Clone, Copy, Debug, PartialEq, Eq, Structural)]
pub enum DomainError {
    /// A numeric field held text that is not a valid decimal quantity.
    ValidationError,
    /// A name-keyed lookup found no entity with the given name.
    NotFound,
}

/// Character-by-character equality of two texts.
pub fn str_eq(a: &str, b: &str) -> (r: bool)
    ensures
        r == (a@ == b@),
{
    let na = a.unicode_len();
    let nb = b.unicode_len();
    if na != nb {
        return false;
    }
    let mut i: usize = 0;
    while i < na
        invariant
            i <= na,
            na == a@.len(),
            na == b@.len(),
            forall|j: int| 0 <= j < i ==> a@[j] == b@[j],
        decreases na - i,
    {
        if a.get_char(i) != b.get_char(i) {
            return false;
        }
        i = i + 1;
    }
    proof {
        assert(a@ =~= b@);
    }
    true
}

} // verus!

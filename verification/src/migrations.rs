//! Which schema migrations a database still needs, and how its schema version is set.

use vstd::prelude::*;
use crate::text::{decimal, push_decimal};

verus! {

/// The migrations to run on a database at schema version `current`, out of `count`
/// migrations numbered from zero: those numbered `current` and up, in order.
pub fn pending_migrations(current: usize, count: usize) -> (r: Vec<usize>)
    ensures
        r@.len() == if current < count {
            count - current
        } else {
            0
        },
        forall|k: int| 0 <= k < r@.len() ==> #[trigger] r@[k] == current + k,
{
    let mut r: Vec<usize> = Vec::new();
    let mut v = current;
    while v < count
        invariant
            current <= v <= if current < count {
                count
            } else {
                current
            },
            r@.len() == v - current,
            forall|k: int| 0 <= k < r@.len() ==> #[trigger] r@[k] == current + k,
        decreases count - v,
    {
        r.push(v);
        v += 1;
    }
    r
}

/// The statement that records that migration `version` has run: the schema version
/// becomes `version + 1`.
pub fn user_version_statement(version: usize) -> (r: String)
    requires
        version < usize::MAX,
    ensures
        r@ == seq!['P', 'R', 'A', 'G', 'M', 'A', ' ', 'u', 's', 'e', 'r', '_', 'v', 'e', 'r', 's', 'i', 'o', 'n', ' ', '=', ' ']
            + decimal((version + 1) as nat),
{
    proof { reveal_strlit("PRAGMA user_version = "); }
    assert("PRAGMA user_version = "@ =~= seq!['P', 'R', 'A', 'G', 'M', 'A', ' ', 'u', 's', 'e', 'r', '_', 'v', 'e', 'r', 's', 'i', 'o', 'n', ' ', '=', ' ']);
    let mut r = String::from_str("PRAGMA user_version = ");
    push_decimal(&mut r, (version + 1) as u64);
    r
}

} // verus!

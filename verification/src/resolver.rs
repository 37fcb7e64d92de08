//! The resource resolver: one filter pass over an account's calendar
//! listing, keeping the leaf events whose collection identifier renders as
//! the target calendar identifier. Calendars are flat — one level of
//! container above its leaf events — so no recursion is needed, and the
//! listing order is kept.

use vstd::prelude::*;
use crate::model::Resource;
use crate::text::decimal_string;
use crate::text::spec_decimal;
use crate::text::str_eq;

verus! {

/// Whether `r` is a leaf event of the calendar whose collection identifier
/// renders in decimal as `cal`.
pub open spec fn leaf_matches(r: Resource, cal: Seq<char>) -> bool {
    !r.is_container && spec_decimal(r.collection_id as nat) == cal
}

/// The leaf events of the target calendar, in listing order.
pub open spec fn matching_leaves(resources: Seq<Resource>, cal: Seq<char>) -> Seq<Resource> {
    resources.filter(|r: Resource| leaf_matches(r, cal))
}

/// Filters an account's calendar listing to the leaf events of the target
/// calendar.
pub fn list_calendar_leaves(resources: &Vec<Resource>, calendar_id: &str) -> (out: Vec<Resource>)
    ensures
        out@ == matching_leaves(resources@, calendar_id@),
{
    let n = resources.len();
    let mut out: Vec<Resource> = Vec::new();
    let mut i: usize = 0;
    while i < n
        invariant
            i <= n,
            n == resources@.len(),
            out@ == matching_leaves(resources@.subrange(0, i as int), calendar_id@),
        decreases n - i,
    {
        let r = resources[i];
        let keep = if r.is_container {
            false
        } else {
            let rendered = decimal_string(r.collection_id);
            str_eq(rendered.as_str(), calendar_id)
        };
        if keep {
            out.push(r);
        }
        proof {
            reveal(Seq::filter);
            let prefix = resources@.subrange(0, i as int);
            assert(resources@.subrange(0, i as int + 1) =~= prefix.push(resources@[i as int]));
            assert(prefix.push(resources@[i as int]).drop_last() =~= prefix);
            assert(prefix.push(resources@[i as int]).last() == resources@[i as int]);
            assert(keep == leaf_matches(resources@[i as int], calendar_id@));
        }
        i = i + 1;
    }
    proof {
        assert(resources@.subrange(0, n as int) =~= resources@);
    }
    out
}

} // verus!

//! Calls into `itertools`. The contract here is taken on trust from the
//! behaviour of `Itertools::sorted_by_key`; nothing in this file is proved.

use vstd::prelude::*;
use itertools::Itertools;
use crate::order::{sorted_stably_by_first_day, Week};

verus! {

/// `Itertools::sorted_by_key` with the first day of each week as the key,
/// compared as the triple of year, month and day. The result holds the same
/// weeks in ascending order of that key, and the sort is stable: weeks with
/// one key keep the order they came in. A week without days has no key, so
/// none is admitted.
#[verifier::external_body]
pub(crate) fn sort_weeks_by_first_day(weeks: Vec<Week>) -> (sorted: Vec<Week>)
    requires
        forall|i: int| 0 <= i < weeks@.len() ==> (#[trigger] weeks@[i]).days@.len() > 0,
    ensures
        exists|origin: Seq<int>| sorted_stably_by_first_day(weeks@, sorted@, origin),
{
    weeks.into_iter().sorted_by_key(|week| week.first_day_key()).collect()
}

} // verus!

//! Last-good lists: what a lane shows while its source fails. Stale beats blank.

use vstd::prelude::*;

verus! {

/// What a fetch came to: the fetched list, or how the failure reads.
pub enum Fetched<A> {
    Good(Seq<A>),
    Failed(Seq<char>),
}

/// The last good list after a fetch: a success replaces it, a failure keeps it.
pub open spec fn last_good_after<A>(last: Seq<A>, fetched: Fetched<A>) -> Seq<A> {
    match fetched {
        Fetched::Good(list) => list,
        Fetched::Failed(_) => last,
    }
}

/// What the footer says after a fetch.
pub open spec fn lane_error<A>(fetched: Fetched<A>) -> Option<Seq<char>> {
    match fetched {
        Fetched::Good(_) => None,
        Fetched::Failed(e) => Some(e),
    }
}

/// The last good list after a row of fetches.
pub open spec fn last_good<A>(start: Seq<A>, fetches: Seq<Fetched<A>>) -> Seq<A>
    decreases fetches.len(),
{
    if fetches.len() == 0 {
        start
    } else {
        last_good_after(last_good(start, fetches.drop_last()), fetches.last())
    }
}

/// However many fetches fail after one that succeeded, what it fetched is still shown.
pub proof fn failures_keep_the_last_good_list<A>(
    start: Seq<A>,
    before: Seq<Fetched<A>>,
    list: Seq<A>,
    failures: Seq<Fetched<A>>,
)
    requires
        forall|i: int| 0 <= i < failures.len() ==> #[trigger] failures[i] is Failed,
    ensures
        last_good(start, before.push(Fetched::Good(list)) + failures) == list,
    decreases failures.len(),
{
    let all = before.push(Fetched::Good(list)) + failures;
    if failures.len() == 0 {
        assert(all =~= before.push(Fetched::Good(list)));
        assert(all.drop_last() =~= before);
    } else {
        assert(all.drop_last() =~= before.push(Fetched::Good(list)) + failures.drop_last());
        assert(all.last() == failures.last());
        assert(failures[failures.len() - 1] is Failed);
        failures_keep_the_last_good_list(start, before, list, failures.drop_last());
    }
}

/// A success is shown as it was fetched and reports no error; a failure shows what was shown
/// before and reports its error.
pub proof fn a_fetch_is_shown_or_reported<A>(last: Seq<A>, list: Seq<A>, error: Seq<char>)
    ensures
        last_good_after(last, Fetched::Good(list)) == list,
        lane_error(Fetched::Good(list)) is None,
        last_good_after(last, Fetched::<A>::Failed(error)) == last,
        lane_error(Fetched::<A>::Failed(error)) == Some(error),
{
}

} // verus!

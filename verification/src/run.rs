//! A whole run, from the listings of the directories to the report.

use vstd::prelude::*;
use crate::app::{App, AppModel};
use crate::error::RunError;
use crate::output::{is_report, render, report_lines};
use crate::scan::{lemma_scan_permutation, query_dir, scan, Entry, EntryModel};
use crate::schedule::{
    lemma_sort_names, lemma_sort_names_unique, sort_names, Event, Scheduler, Step,
};

verus! {

/// The model of a listing: the entries of a directory, or `None` where the
/// directory could not be listed.
pub open spec fn listing_model(listing: Option<Vec<Entry>>) -> Option<Seq<EntryModel>> {
    match listing {
        Some(entries) => Some(entries.deep_view()),
        None => None,
    }
}

/// The models of the listings, by directory.
pub open spec fn listing_models(listings: Seq<Option<Vec<Entry>>>) -> Seq<
    Option<Seq<EntryModel>>,
> {
    Seq::new(listings.len(), |i: int| listing_model(listings[i]))
}

/// The listing of the directory at `i`: `None` where there is none.
pub open spec fn listing_at(listings: Seq<Option<Seq<EntryModel>>>, i: int) -> Option<
    Seq<EntryModel>,
> {
    if 0 <= i < listings.len() {
        listings[i]
    } else {
        None
    }
}

/// The first of the first `n` directories that has no listing, if there is one.
pub open spec fn first_unlisted(listings: Seq<Option<Seq<EntryModel>>>, n: int) -> Option<int>
    decreases n,
{
    if n <= 0 {
        None
    } else {
        match first_unlisted(listings, n - 1) {
            Some(i) => Some(i),
            None => if listing_at(listings, n - 1) is None {
                Some(n - 1)
            } else {
                None
            },
        }
    }
}

/// The names that a run reports for the directory at `i`: those that the scan
/// of its listing reports, in ascending order.
pub open spec fn matches_at(app: AppModel, listings: Seq<Option<Seq<EntryModel>>>, i: int) -> Seq<
    Seq<char>,
>
    recommends
        0 <= i < app.config.dirs.len(),
        listing_at(listings, i) is Some,
{
    sort_names(scan(app, app.config.dirs[i], listing_at(listings, i)->Some_0))
}

/// The names that a run reports, by directory.
pub open spec fn all_matches(app: AppModel, listings: Seq<Option<Seq<EntryModel>>>) -> Seq<
    Seq<Seq<char>>,
> {
    Seq::new(app.config.dirs.len(), |i: int| matches_at(app, listings, i))
}

/// Once a directory has no listing, looking at more directories finds the
/// same one first.
proof fn lemma_first_unlisted_stays(listings: Seq<Option<Seq<EntryModel>>>, n: int, m: int)
    requires
        0 <= n <= m,
        first_unlisted(listings, n) is Some,
    ensures
        first_unlisted(listings, m) == first_unlisted(listings, n),
    decreases m - n,
{
    if n < m {
        lemma_first_unlisted_stays(listings, n, m - 1);
    }
}

/// Where none of the first `n` directories is without a listing, each of them
/// has one.
pub proof fn lemma_all_listed(listings: Seq<Option<Seq<EntryModel>>>, n: int, i: int)
    requires
        first_unlisted(listings, n) is None,
        0 <= i < n,
    ensures
        listing_at(listings, i) is Some,
    decreases n,
{
    if i < n - 1 {
        lemma_all_listed(listings, n - 1, i);
    }
}

impl App {
    /// Runs the search on the listings of the directories, one after the other,
    /// and renders the report.
    ///
    /// `listings[i]` is the listing of the directory at `i`, or `None` where
    /// the directory could not be listed; a directory without a listing counts
    /// as one that could not be listed. The first such directory gives the run
    /// up with `DirectoryUnreadable` and the path of the directory. Otherwise
    /// the lines are the report of the names found, each directory under its
    /// label in its color.
    pub fn run(&self, listings: &Vec<Option<Vec<Entry>>>) -> (r: Result<Vec<String>, RunError>)
        ensures
            match first_unlisted(listing_models(listings@), self@.config.dirs.len() as int) {
                None => r is Ok && is_report(
                    r->Ok_0.deep_view(),
                    self@,
                    all_matches(self@, listing_models(listings@)),
                ),
                Some(i) => r is Err && r->Err_0 is DirectoryUnreadable && r->Err_0->path@
                    == self@.config.dirs[i].path,
            },
    {
        let ghost models = listing_models(listings@);
        let total = self.config.dirs.len();
        let mut scheduler = Scheduler::new(total);
        loop
            invariant
                total == self.config.dirs.len(),
                models == listing_models(listings@),
                scheduler@.consistent(),
                scheduler@.total == total,
                first_unlisted(models, scheduler@.lists.len() as int) is None,
                scheduler@.failed is Some ==> listing_at(
                    models,
                    scheduler@.failed->Some_0 as int,
                ) is None,
                forall|k: int|
                    0 <= k < scheduler@.lists.len() ==> #[trigger] scheduler@.lists[k]
                        == matches_at(self@, models, k),
            decreases
                    if scheduler@.failed is Some {
                        0int
                    } else {
                        1int
                    },
                    2 * total - scheduler@.dispatched - scheduler@.lists.len(),
        {
            match scheduler.next() {
                Step::Dispatch(_) => {
                    scheduler = scheduler.advance(Event::Dispatched);
                },
                Step::Await(index) => {
                    let ghost before = scheduler@;
                    let found = if index < listings.len() {
                        match &listings[index] {
                            Some(entries) => Some(
                                query_dir(self, &self.config.dirs[index], entries),
                            ),
                            None => None,
                        }
                    } else {
                        None
                    };
                    proof {
                        if index < listings.len() {
                            assert(models[index as int] == listing_model(listings@[index as int]));
                        }
                        assert(self@.config.dirs[index as int] == self.config.dirs[index as int]@);
                    }
                    match found {
                        Some(names) => {
                            assert(sort_names(names.deep_view()) == matches_at(
                                self@,
                                models,
                                index as int,
                            ));
                            scheduler = scheduler.advance(Event::Completed(names));
                            let ghost after = scheduler@;
                            assert forall|k: int| 0 <= k < after.lists.len() implies #[trigger]
                                after.lists[k] == matches_at(self@, models, k) by {
                                if k < before.lists.len() {
                                    assert(after.lists[k] == before.lists[k]);
                                }
                            }
                        },
                        None => {
                            scheduler = scheduler.advance(Event::Failed);
                        },
                    }
                },
                Step::Finish => {
                    let lists = scheduler.into_lists();
                    assert(lists.deep_view() =~= all_matches(self@, models));
                    return Ok(render(self, &lists));
                },
                Step::Abort(index) => {
                    proof {
                        assert(self@.config.dirs[index as int] == self.config.dirs[index as int]@);
                        assert(first_unlisted(models, index + 1) == Some(index as int));
                        lemma_first_unlisted_stays(models, index + 1, total as int);
                    }
                    return Err(
                        RunError::DirectoryUnreadable {
                            path: self.config.dirs[index].path.clone(),
                        },
                    );
                },
            }
        }
    }
}

/// The names that a run reports for a directory do not depend on the order in
/// which the listing of the directory gives its entries.
pub proof fn lemma_matches_ignore_listing_order(
    app: AppModel,
    first: Seq<Option<Seq<EntryModel>>>,
    second: Seq<Option<Seq<EntryModel>>>,
    i: int,
)
    requires
        listing_at(first, i) is Some,
        listing_at(second, i) is Some,
        listing_at(first, i)->Some_0.to_multiset() == listing_at(second, i)->Some_0.to_multiset(),
    ensures
        matches_at(app, first, i) == matches_at(app, second, i),
{
    let dir = app.config.dirs[i];
    let one = listing_at(first, i)->Some_0;
    let other = listing_at(second, i)->Some_0;
    lemma_scan_permutation(app, dir, one, other);
    lemma_sort_names(scan(app, dir, other));
    lemma_sort_names_unique(scan(app, dir, one), sort_names(scan(app, dir, other)));
}

/// A run on an unchanged configuration and unchanged directories reports the
/// same lines again, whatever the order in which the directories are listed
/// the second time: if each directory has the same entries in both sets of
/// listings, the reports are equal line by line.
pub proof fn lemma_report_is_repeatable(
    app: AppModel,
    first: Seq<Option<Seq<EntryModel>>>,
    second: Seq<Option<Seq<EntryModel>>>,
    prefixes: Seq<Seq<char>>,
)
    requires
        first_unlisted(first, app.config.dirs.len() as int) is None,
        first_unlisted(second, app.config.dirs.len() as int) is None,
        forall|i: int|
            0 <= i < app.config.dirs.len() ==> (#[trigger] listing_at(
                first,
                i,
            ))->Some_0.to_multiset() == listing_at(second, i)->Some_0.to_multiset(),
    ensures
        report_lines(app, all_matches(app, first), prefixes) == report_lines(
            app,
            all_matches(app, second),
            prefixes,
        ),
{
    assert forall|i: int| 0 <= i < app.config.dirs.len() implies matches_at(app, first, i)
        == matches_at(app, second, i) by {
        lemma_all_listed(first, app.config.dirs.len() as int, i);
        lemma_all_listed(second, app.config.dirs.len() as int, i);
        assert(listing_at(first, i)->Some_0.to_multiset() == listing_at(
            second,
            i,
        )->Some_0.to_multiset());
        lemma_matches_ignore_listing_order(app, first, second, i);
    }
    assert(all_matches(app, first) =~= all_matches(app, second));
}

} // verus!

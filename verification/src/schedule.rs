//! The order of a run: one scan per directory, dispatched in the order of the
//! directories, and the results taken back in that same order.
//!
//! The scans themselves run elsewhere, all at once. The `Scheduler` decides
//! what happens next and keeps what came back.

use vstd::prelude::*;
use std::collections::VecDeque;
use crate::text::{
    lemma_lex_le_total, lemma_lex_le_total_ordering, lemma_lex_le_transitive, lex_le, str_le,
};

verus! {

// ---------------------------------------------------------------------------
// Sorting names
// ---------------------------------------------------------------------------

/// The order of names: lexicographic, by code point.
pub open spec fn name_order() -> spec_fn(Seq<char>, Seq<char>) -> bool {
    |a: Seq<char>, b: Seq<char>| lex_le(a, b)
}

/// The names come in ascending order.
pub open spec fn ascending(names: Seq<Seq<char>>) -> bool {
    forall|i: int, j: int| 0 <= i < j < names.len() ==> lex_le(names[i], names[j])
}

/// The names of `names`, each as often as it stands there, in ascending order.
pub open spec fn sort_names(names: Seq<Seq<char>>) -> Seq<Seq<char>> {
    names.sort_by(name_order())
}

/// `sort_names` puts the same names in ascending order.
pub proof fn lemma_sort_names(names: Seq<Seq<char>>)
    ensures
        ascending(sort_names(names)),
        sort_names(names).to_multiset() == names.to_multiset(),
{
    lemma_lex_le_total_ordering();
    assert(name_order() == (|a: Seq<char>, b: Seq<char>| lex_le(a, b)));
    names.lemma_sort_by_ensures(name_order());
    let sorted = sort_names(names);
    assert forall|i: int, j: int| 0 <= i < j < sorted.len() implies lex_le(
        sorted[i],
        sorted[j],
    ) by {
        assert(name_order()(sorted[i], sorted[j]));
    }
}

/// There is one way to put names in ascending order: names in ascending order
/// that are the names of `names` are `sort_names(names)`.
pub proof fn lemma_sort_names_unique(names: Seq<Seq<char>>, sorted: Seq<Seq<char>>)
    requires
        ascending(sorted),
        sorted.to_multiset() == names.to_multiset(),
    ensures
        sorted == sort_names(names),
{
    lemma_lex_le_total_ordering();
    assert(name_order() == (|a: Seq<char>, b: Seq<char>| lex_le(a, b)));
    names.lemma_sort_by_ensures(name_order());
    assert(vstd::relations::sorted_by(sorted, name_order())) by {
        assert forall|i: int, j: int| 0 <= i < j < sorted.len() implies #[trigger] name_order()(
            sorted[i],
            sorted[j],
        ) by {
            assert(lex_le(sorted[i], sorted[j]));
        }
    }
    vstd::seq_lib::lemma_sorted_unique(sorted, sort_names(names), name_order());
}

/// Puts `name` at its place among `names`, behind the names that equal it. The
/// place is found by bisection.
fn insert_name(names: &mut Vec<String>, name: String)
    requires
        ascending(old(names).deep_view()),
    ensures
        ascending(final(names).deep_view()),
        final(names).deep_view().to_multiset() == old(names).deep_view().to_multiset().insert(
            name@,
        ),
{
    let ghost before = names.deep_view();
    let ghost text = name@;
    let mut low: usize = 0;
    let mut high: usize = names.len();
    while low < high
        invariant
            low <= high <= names.len(),
            names.deep_view() == before,
            text == name@,
            ascending(before),
            forall|i: int| 0 <= i < low ==> lex_le(#[trigger] before[i], text),
            forall|i: int| high <= i < before.len() ==> !lex_le(#[trigger] before[i], text),
        decreases high - low,
    {
        let middle = low + (high - low) / 2;
        if str_le(names[middle].as_str(), name.as_str()) {
            proof {
                assert forall|i: int| 0 <= i < middle + 1 implies lex_le(
                    #[trigger] before[i],
                    text,
                ) by {
                    if i < middle {
                        lemma_lex_le_transitive(before[i], before[middle as int], text);
                    }
                }
            }
            low = middle + 1;
        } else {
            proof {
                assert forall|i: int| middle <= i < before.len() implies !lex_le(
                    #[trigger] before[i],
                    text,
                ) by {
                    if i > middle && lex_le(before[i], text) {
                        lemma_lex_le_transitive(before[middle as int], before[i], text);
                    }
                }
            }
            high = middle;
        }
    }
    names.insert(low, name);
    proof {
        let after = names.deep_view();
        assert(after =~= before.insert(low as int, text));
        vstd::seq_lib::to_multiset_insert(before, low as int, text);
        assert forall|i: int, j: int| 0 <= i < j < after.len() implies lex_le(
            after[i],
            after[j],
        ) by {
            if j == low {
                assert(after[i] == before[i]);
            } else if i == low {
                assert(after[j] == before[j - 1]);
                lemma_lex_le_total(before[j - 1], text);
            } else {
                let ki = if i < low { i } else { i - 1 };
                let kj = if j < low { j } else { j - 1 };
                assert(after[i] == before[ki]);
                assert(after[j] == before[kj]);
            }
        }
    }
}

/// Sorts names in ascending lexicographic order.
pub fn sort(names: Vec<String>) -> (sorted: Vec<String>)
    ensures
        sorted.deep_view() == sort_names(names.deep_view()),
{
    let ghost all = names.deep_view();
    let mut sorted: Vec<String> = Vec::new();
    assert(sorted.deep_view().to_multiset() =~= all.take(0).to_multiset()) by {
        assert(sorted.deep_view() =~= all.take(0));
    }
    for name in it: names
        invariant
            it.seq().len() == all.len(),
            forall|j: int| 0 <= j < all.len() ==> (#[trigger] it.seq()[j])@ == all[j],
            ascending(sorted.deep_view()),
            sorted.deep_view().to_multiset() == all.take(it.index() as int).to_multiset(),
    {
        let ghost i = it.index() as int;
        proof {
            assert(all.take(i + 1) =~= all.take(i).push(all[i]));
            vstd::seq_lib::to_multiset_build(all.take(i), all[i]);
        }
        insert_name(&mut sorted, name);
    }
    proof {
        assert(all.take(all.len() as int) == all);
        lemma_sort_names_unique(all, sorted.deep_view());
    }
    sorted
}

// ---------------------------------------------------------------------------
// The scheduler
// ---------------------------------------------------------------------------

/// What the run does next.
#[derive(Clone, Copy, Debug, PartialEq, Eq, Structural)]
pub enum Step {
    /// Start the scan of the directory at this index, without waiting for it.
    Dispatch(usize),
    /// Wait for the scan of the directory at this index and hand in its result.
    Await(usize),
    /// Every result is in: report.
    Finish,
    /// The scan of the directory at this index failed: give the run up.
    Abort(usize),
}

/// What the run did.
#[derive(Debug)]
pub enum Event {
    /// The scan asked for was started.
    Dispatched,
    /// The scan waited for came back with these names.
    Completed(Vec<String>),
    /// The scan waited for could not list its directory.
    Failed,
}

/// The model of an `Event`.
pub enum EventModel {
    Dispatched,
    Completed(Seq<Seq<char>>),
    Failed,
}

impl View for Event {
    type V = EventModel;

    open spec fn view(&self) -> EventModel {
        match self {
            Event::Dispatched => EventModel::Dispatched,
            Event::Completed(names) => EventModel::Completed(names.deep_view()),
            Event::Failed => EventModel::Failed,
        }
    }
}

/// The model of a `Scheduler`.
pub struct SchedulerModel {
    /// How many directories the run scans.
    pub total: usize,
    /// How many scans were started: those of the directories before this index.
    pub dispatched: usize,
    /// The names that came back, sorted: `lists[i]` from the directory at `i`.
    pub lists: Seq<Seq<Seq<char>>>,
    /// The directory whose scan failed, if one did.
    pub failed: Option<usize>,
}

impl SchedulerModel {
    /// The state of a run over `total` directories of which nothing has
    /// happened yet.
    pub open spec fn start(total: usize) -> SchedulerModel {
        SchedulerModel { total, dispatched: 0, lists: Seq::empty(), failed: None }
    }

    /// No result is ahead of its scan, and no scan ahead of its directory.
    pub open spec fn consistent(self) -> bool {
        &&& self.lists.len() <= self.dispatched <= self.total
        &&& self.failed is Some ==> self.failed->Some_0 == self.lists.len() < self.dispatched
    }

    /// What the run does next: every scan is started, in the order of the
    /// directories, before the first result is waited for; the results are
    /// then waited for in the order in which their scans were started.
    pub open spec fn next(self) -> Step {
        if self.failed is Some {
            Step::Abort(self.failed->Some_0)
        } else if self.dispatched < self.total {
            Step::Dispatch(self.dispatched)
        } else if self.lists.len() < self.total {
            Step::Await(self.lists.len() as usize)
        } else {
            Step::Finish
        }
    }

    /// The state after `event`. An event that does not answer the step that
    /// was due changes nothing.
    pub open spec fn after(self, event: EventModel) -> SchedulerModel {
        match (self.next(), event) {
            (Step::Dispatch(_), EventModel::Dispatched) => SchedulerModel {
                dispatched: (self.dispatched + 1) as usize,
                ..self
            },
            (Step::Await(_), EventModel::Completed(names)) => SchedulerModel {
                lists: self.lists.push(sort_names(names)),
                ..self
            },
            (Step::Await(index), EventModel::Failed) => SchedulerModel {
                failed: Some(index),
                ..self
            },
            _ => self,
        }
    }
}

/// Results are taken back in the order in which the scans were started, never
/// in the order in which they end: the result waited for is that of the first
/// directory that has none yet, every scan has been started by then, and the
/// names that come back are kept, sorted, as the result of that directory.
pub proof fn lemma_results_follow_dispatch_order(state: SchedulerModel, names: Seq<Seq<char>>)
    requires
        state.consistent(),
        state.next() is Await,
    ensures
        state.next()->Await_0 == state.lists.len(),
        state.dispatched == state.total,
        state.after(EventModel::Completed(names)).lists == state.lists.push(sort_names(names)),
        state.after(EventModel::Completed(names)).lists[state.next()->Await_0 as int] == sort_names(
            names,
        ),
{
}

/// Whatever happens, no result gets ahead of its scan and no scan ahead of its
/// directory, and results that are in stay as they are.
pub proof fn lemma_after_keeps_order(state: SchedulerModel, event: EventModel)
    requires
        state.consistent(),
    ensures
        state.after(event).consistent(),
        state.after(event).total == state.total,
        state.lists.is_prefix_of(state.after(event).lists),
{
    assert(state.lists.is_prefix_of(state.lists));
    match event {
        EventModel::Completed(names) => {
            assert(state.lists.is_prefix_of(state.lists.push(sort_names(names))));
        },
        _ => {},
    }
}

/// The state of a run between two steps.
///
/// The scans that were started and whose results are still out stand in a
/// queue, first in, first out: the result waited for is always that of the
/// scan that was started first.
#[derive(Debug)]
pub struct Scheduler {
    total: usize,
    dispatched: usize,
    pending: VecDeque<usize>,
    lists: Vec<Vec<String>>,
    failed: Option<usize>,
}

impl View for Scheduler {
    type V = SchedulerModel;

    closed spec fn view(&self) -> SchedulerModel {
        SchedulerModel {
            total: self.total,
            dispatched: self.dispatched,
            lists: self.lists.deep_view(),
            failed: self.failed,
        }
    }
}

impl Scheduler {
    #[verifier::type_invariant]
    spec fn queue_in_order(self) -> bool {
        &&& self@.consistent()
        &&& self.lists.len() + self.pending@.len() == self.dispatched
        &&& forall|k: int|
            0 <= k < self.pending@.len() ==> #[trigger] self.pending@[k] == self.lists.len() + k
    }

    /// A run over `total` directories, of which nothing has happened yet.
    pub fn new(total: usize) -> (scheduler: Scheduler)
        ensures
            scheduler@ == SchedulerModel::start(total),
    {
        let scheduler = Scheduler {
            total,
            dispatched: 0,
            pending: VecDeque::new(),
            lists: Vec::new(),
            failed: None,
        };
        assert(scheduler.lists.deep_view() =~= Seq::empty());
        scheduler
    }

    /// What the run does next.
    pub fn next(&self) -> (step: Step)
        ensures
            step == self@.next(),
            self@.consistent(),
    {
        proof {
            use_type_invariant(self);
        }
        match self.failed {
            Some(index) => Step::Abort(index),
            None => {
                if self.dispatched < self.total {
                    Step::Dispatch(self.dispatched)
                } else if self.pending.len() > 0 {
                    Step::Await(self.pending[0])
                } else {
                    Step::Finish
                }
            },
        }
    }

    /// The state of the run after `event`. The names of a scan that came back
    /// are sorted and kept as the result of the directory waited for.
    pub fn advance(self, event: Event) -> (scheduler: Scheduler)
        ensures
            scheduler@ == self@.after(event@),
            scheduler@.consistent(),
    {
        proof {
            use_type_invariant(&self);
        }
        let step = self.next();
        let Scheduler { total, dispatched, mut pending, mut lists, failed } = self;
        match event {
            Event::Dispatched => {
                match step {
                    Step::Dispatch(index) => {
                        pending.push_back(index);
                        Scheduler { total, dispatched: dispatched + 1, pending, lists, failed }
                    },
                    _ => Scheduler { total, dispatched, pending, lists, failed },
                }
            },
            Event::Completed(names) => {
                match step {
                    Step::Await(_) => {
                        let ghost before = lists.deep_view();
                        let ghost queue = pending@;
                        let sorted = sort(names);
                        let _ = pending.pop_front();
                        lists.push(sorted);
                        assert(lists.deep_view() =~= before.push(sort_names(names.deep_view())));
                        assert forall|k: int| 0 <= k < pending@.len() implies #[trigger] pending@[k]
                            == lists.len() + k by {
                            assert(pending@[k] == queue[k + 1]);
                        }
                        Scheduler { total, dispatched, pending, lists, failed }
                    },
                    _ => Scheduler { total, dispatched, pending, lists, failed },
                }
            },
            Event::Failed => {
                match step {
                    Step::Await(index) => Scheduler {
                        total,
                        dispatched,
                        pending,
                        lists,
                        failed: Some(index),
                    },
                    _ => Scheduler { total, dispatched, pending, lists, failed },
                }
            },
        }
    }

    /// The names that came back so far, sorted, by directory.
    pub fn lists(&self) -> (lists: &Vec<Vec<String>>)
        ensures
            lists.deep_view() == self@.lists,
    {
        &self.lists
    }

    /// The names that came back, sorted, by directory.
    pub fn into_lists(self) -> (lists: Vec<Vec<String>>)
        ensures
            lists.deep_view() == self@.lists,
    {
        self.lists
    }
}

} // verus!

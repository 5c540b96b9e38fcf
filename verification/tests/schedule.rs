use bsrc::schedule::{sort, Event, Scheduler, Step};

fn names(list: &[&str]) -> Vec<String> {
    list.iter().map(|name| name.to_string()).collect()
}

#[test]
fn sort_puts_names_in_ascending_order() {
    assert_eq!(sort(names(&["c", "a", "b"])), ["a", "b", "c"]);
    assert_eq!(sort(names(&["b", "a", "b", "a"])), ["a", "a", "b", "b"]);
    assert_eq!(
        sort(names(&["Zelda", "mario", "Mario", "", "10", "9"])),
        ["", "10", "9", "Mario", "Zelda", "mario"]
    );
    assert_eq!(sort(Vec::new()), Vec::<String>::new());
}

#[test]
fn sort_agrees_with_std() {
    let mut seed: u32 = 12345;
    for _ in 0..50 {
        let mut list = Vec::new();
        for _ in 0..(seed % 13) {
            seed = seed.wrapping_mul(1664525).wrapping_add(1013904223);
            let len = (seed >> 28) as usize % 4;
            let mut name = String::new();
            for k in 0..len {
                name.push(['a', 'b', 'B', 'é'][((seed >> (4 * k)) & 3) as usize]);
            }
            list.push(name);
        }
        seed = seed.wrapping_mul(1664525).wrapping_add(1013904223);
        let mut expected = list.clone();
        expected.sort();
        assert_eq!(sort(list), expected);
    }
}

#[test]
fn every_scan_is_dispatched_before_the_first_result_is_awaited() {
    let mut scheduler = Scheduler::new(3);
    for i in 0..3 {
        assert_eq!(scheduler.next(), Step::Dispatch(i));
        scheduler = scheduler.advance(Event::Dispatched);
    }
    for i in 0..3 {
        assert_eq!(scheduler.next(), Step::Await(i));
        scheduler = scheduler.advance(Event::Completed(names(&[&format!("dir{i}")])));
    }
    assert_eq!(scheduler.next(), Step::Finish);
    assert_eq!(scheduler.lists(), &vec![names(&["dir0"]), names(&["dir1"]), names(&["dir2"])]);
}

#[test]
fn results_are_sorted_when_they_are_taken_back() {
    let mut scheduler = Scheduler::new(2);
    scheduler = scheduler.advance(Event::Dispatched);
    scheduler = scheduler.advance(Event::Dispatched);
    scheduler = scheduler.advance(Event::Completed(names(&["b", "c", "a"])));
    scheduler = scheduler.advance(Event::Completed(names(&["z", "y"])));
    assert_eq!(scheduler.next(), Step::Finish);
    assert_eq!(scheduler.into_lists(), vec![names(&["a", "b", "c"]), names(&["y", "z"])]);
}

#[test]
fn a_run_without_directories_finishes_at_once() {
    let scheduler = Scheduler::new(0);
    assert_eq!(scheduler.next(), Step::Finish);
    assert!(scheduler.into_lists().is_empty());
}

#[test]
fn a_failed_scan_gives_the_run_up() {
    let mut scheduler = Scheduler::new(3);
    for _ in 0..3 {
        scheduler = scheduler.advance(Event::Dispatched);
    }
    scheduler = scheduler.advance(Event::Completed(names(&["a"])));
    assert_eq!(scheduler.next(), Step::Await(1));
    scheduler = scheduler.advance(Event::Failed);
    assert_eq!(scheduler.next(), Step::Abort(1));
    scheduler = scheduler.advance(Event::Completed(names(&["late"])));
    assert_eq!(scheduler.next(), Step::Abort(1));
    scheduler = scheduler.advance(Event::Dispatched);
    scheduler = scheduler.advance(Event::Failed);
    assert_eq!(scheduler.next(), Step::Abort(1));
    assert_eq!(scheduler.lists(), &vec![names(&["a"])]);
}

#[test]
fn an_event_that_answers_no_step_changes_nothing() {
    let mut scheduler = Scheduler::new(2);
    scheduler = scheduler.advance(Event::Completed(names(&["early"])));
    scheduler = scheduler.advance(Event::Failed);
    assert_eq!(scheduler.next(), Step::Dispatch(0));
    assert!(scheduler.lists().is_empty());
    scheduler = scheduler.advance(Event::Dispatched);
    scheduler = scheduler.advance(Event::Dispatched);
    scheduler = scheduler.advance(Event::Dispatched);
    assert_eq!(scheduler.next(), Step::Await(0));
    scheduler = scheduler.advance(Event::Completed(Vec::new()));
    scheduler = scheduler.advance(Event::Completed(Vec::new()));
    scheduler = scheduler.advance(Event::Completed(names(&["late"])));
    scheduler = scheduler.advance(Event::Failed);
    scheduler = scheduler.advance(Event::Dispatched);
    assert_eq!(scheduler.next(), Step::Finish);
    assert_eq!(scheduler.lists(), &vec![Vec::<String>::new(), Vec::new()]);
}

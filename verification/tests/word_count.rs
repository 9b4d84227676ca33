use actors::root_actor::RootActor;
use actors::word_count::{count_words, ManagerState};
use actors::ActorRef;
use std::sync::Arc;

fn worker(pid: u128) -> ActorRef<RootActor> {
    ActorRef::new(pid, Arc::new(RootActor))
}

fn lines(texts: &[&str]) -> Vec<String> {
    texts.iter().map(|t| t.to_string()).collect()
}

fn pool(flags: &[bool], texts: &[&str]) -> ManagerState<RootActor> {
    let mut state = ManagerState::new();
    for (i, free) in flags.iter().enumerate() {
        state.workers.push((*free, worker(100 + i as u128)));
    }
    state.to_process = lines(texts);
    state
}

fn flags(state: &ManagerState<RootActor>) -> Vec<bool> {
    state.workers.iter().map(|w| w.0).collect()
}

fn pids(state: &ManagerState<RootActor>) -> Vec<u128> {
    state.workers.iter().map(|w| w.1.pid).collect()
}

#[test]
fn words_are_the_pieces_between_spaces() {
    assert_eq!(count_words("one two three four"), 4);
    assert_eq!(count_words("word"), 1);
    assert_eq!(count_words("a b"), 2);
}

#[test]
fn empty_pieces_count_as_words() {
    assert_eq!(count_words(""), 1);
    assert_eq!(count_words(" "), 2);
    assert_eq!(count_words("a  b"), 3);
    assert_eq!(count_words(" a "), 3);
    assert_eq!(count_words("   "), 4);
}

#[test]
fn only_spaces_part_words() {
    assert_eq!(count_words("a\tb\nc"), 1);
    assert_eq!(count_words("h\u{e9}llo w\u{f6}rld \u{4e16}\u{754c}"), 3);
    assert_eq!(count_words("a\u{a0}b"), 1);
}

#[test]
fn word_count_agrees_with_split() {
    for text in ["", "x", "x y", " x  y ", "the quick brown fox", "  ", "a b c d e f g h i j"] {
        assert_eq!(count_words(text), text.split(' ').count() as i32);
    }
}

#[test]
fn new_manager_state_is_empty() {
    let state: ManagerState<RootActor> = ManagerState::new();
    assert!(state.workers.is_empty());
    assert_eq!(state.count, 0);
    assert!(state.to_process.is_empty());
    assert!(state.can_assign());
    assert_eq!(state.get_busy_count(), 0);
    assert_eq!(state.get_to_process_count(), 0);
    assert!(state.is_done());
}

#[test]
fn free_workers_take_lines_from_the_end() {
    let mut state = pool(&[true, true, true], &["l0", "l1", "l2", "l3", "l4"]);
    assert!(state.can_assign());
    let sends = state.assign();
    let sent: Vec<(u128, &str)> = sends.iter().map(|s| (s.0.pid, s.1.as_str())).collect();
    assert_eq!(sent, vec![(100, "l4"), (101, "l3"), (102, "l2")]);
    assert_eq!(state.to_process, lines(&["l0", "l1"]));
    assert_eq!(flags(&state), vec![false, false, false]);
    assert_eq!(pids(&state), vec![100, 101, 102]);
    assert_eq!(state.count, 0);
    assert_eq!(state.get_busy_count(), 3);
    assert_eq!(state.get_to_process_count(), 2);
    assert!(!state.is_done());
}

#[test]
fn busy_workers_take_nothing() {
    let mut state = pool(&[false, true, false, true], &["l0", "l1", "l2"]);
    let sends = state.assign();
    let sent: Vec<(u128, &str)> = sends.iter().map(|s| (s.0.pid, s.1.as_str())).collect();
    assert_eq!(sent, vec![(101, "l2"), (103, "l1")]);
    assert_eq!(state.to_process, lines(&["l0"]));
    assert_eq!(flags(&state), vec![false, false, false, false]);
    let again = state.assign();
    assert!(again.is_empty());
    assert_eq!(state.to_process, lines(&["l0"]));
    assert_eq!(flags(&state), vec![false, false, false, false]);
}

#[test]
fn without_lines_nothing_is_assigned() {
    let mut state = pool(&[true, false, true], &[]);
    assert!(state.can_assign());
    let sends = state.assign();
    assert!(sends.is_empty());
    assert_eq!(flags(&state), vec![true, false, true]);
    assert!(state.to_process.is_empty());
}

#[test]
fn as_many_lines_as_free_workers_are_all_assigned() {
    let mut state = pool(&[true, true], &["a", "b"]);
    assert!(state.can_assign());
    let sends = state.assign();
    let sent: Vec<(u128, &str)> = sends.iter().map(|s| (s.0.pid, s.1.as_str())).collect();
    assert_eq!(sent, vec![(100, "b"), (101, "a")]);
    assert!(state.to_process.is_empty());
}

#[test]
fn more_free_workers_than_lines_cannot_be_served() {
    let state = pool(&[true, true, true], &["a", "b"]);
    assert!(!state.can_assign());
    let state = pool(&[true, false, true], &["a", "b"]);
    assert!(state.can_assign());
    let state = pool(&[true, true, true], &[]);
    assert!(state.can_assign());
}

#[test]
fn result_is_added_and_frees_its_sender() {
    let mut state = pool(&[false, false, false], &["left"]);
    state.count = 10;
    state.record_result(5, &Some(worker(101)));
    assert_eq!(state.count, 15);
    assert_eq!(flags(&state), vec![false, true, false]);
    assert_eq!(pids(&state), vec![100, 101, 102]);
    assert_eq!(state.to_process, lines(&["left"]));
    state.record_result(-3, &Some(worker(999)));
    assert_eq!(state.count, 12);
    assert_eq!(flags(&state), vec![false, true, false]);
    state.record_result(1, &None);
    assert_eq!(state.count, 13);
    assert_eq!(flags(&state), vec![false, true, false]);
    state.record_result(0, &Some(worker(101)));
    assert_eq!(flags(&state), vec![false, true, false]);
}

#[test]
fn result_frees_every_worker_with_the_senders_pid() {
    let mut state: ManagerState<RootActor> = ManagerState::new();
    state.workers.push((false, worker(7)));
    state.workers.push((false, worker(8)));
    state.workers.push((false, worker(7)));
    state.record_result(2, &Some(worker(7)));
    assert_eq!(flags(&state), vec![true, false, true]);
    assert_eq!(state.count, 2);
}

#[test]
fn busy_and_left_counts() {
    let state = pool(&[true, false, false, true, false], &["a", "b"]);
    assert_eq!(state.get_busy_count(), 3);
    assert_eq!(state.get_to_process_count(), 2);
    assert!(!state.is_done());
    let state = pool(&[true, true], &["a"]);
    assert_eq!(state.get_busy_count(), 0);
    assert!(!state.is_done());
    let state = pool(&[true, false], &[]);
    assert_eq!(state.get_to_process_count(), 0);
    assert!(!state.is_done());
    let state = pool(&[true, true], &[]);
    assert!(state.is_done());
}

#[test]
fn a_text_is_counted_by_a_pool_of_two() {
    let text = ["one two", "three", "four five six", " seven", "eight nine "];
    let mut state = pool(&[true, true], &text);
    let mut rounds = 0;
    while !state.is_done() {
        assert!(state.can_assign());
        let sends = state.assign();
        for (to, line) in sends {
            state.record_result(count_words(&line), &Some(to));
        }
        rounds += 1;
        assert!(rounds < 10);
        if state.to_process.len() == 1 {
            // One line for two free workers: the second is left without.
            state.workers[1].0 = false;
            let sends = state.assign();
            assert_eq!(sends.len(), 1);
            state.record_result(count_words(&sends[0].1), &Some(sends[0].0.clone()));
            state.workers[1].0 = true;
        }
    }
    assert_eq!(state.count, 2 + 1 + 3 + 2 + 3);
    assert!(state.to_process.is_empty());
}

#[test]
fn workers_join_the_pool_free_and_last() {
    let mut state: ManagerState<RootActor> = ManagerState::new();
    state.count = 4;
    state.add_worker(worker(9));
    state.add_worker(worker(3));
    assert_eq!(flags(&state), vec![true, true]);
    assert_eq!(pids(&state), vec![9, 3]);
    assert_eq!(state.count, 4);
    assert!(state.to_process.is_empty());
    state.workers[0].0 = false;
    state.add_worker(worker(5));
    assert_eq!(flags(&state), vec![false, true, true]);
    assert_eq!(pids(&state), vec![9, 3, 5]);
}

#[test]
fn new_lines_take_the_place_of_the_old() {
    let mut state = pool(&[true, false], &["old"]);
    state.count = 2;
    state.set_lines(lines(&["a b", "c"]));
    assert_eq!(state.to_process, lines(&["a b", "c"]));
    assert_eq!(flags(&state), vec![true, false]);
    assert_eq!(state.count, 2);
    state.set_lines(Vec::new());
    assert!(state.to_process.is_empty());
}

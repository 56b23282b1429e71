//! Runs of the tape primitives over an in-memory backing sequence.

use lexbuf::LexBuf;
use lexbuf::SeqTape;

fn tape_123() -> SeqTape<u32> {
    SeqTape::new(vec![10, 20, 30], 0)
}

#[test]
fn get_serves_source_in_order() {
    let mut t = tape_123();
    assert_eq!(t.get(), 10);
    assert_eq!(t.get(), 20);
    assert_eq!(t.get(), 30);
}

#[test]
fn get_past_end_serves_end_indicator_repeatedly() {
    let mut t = SeqTape::new(vec![7u32], 99);
    assert_eq!(t.get(), 7);
    assert_eq!(t.get(), 99);
    assert_eq!(t.get(), 99);
    assert_eq!(t.get(), 99);
}

#[test]
fn highlight_collects_probed_items() {
    let mut t = tape_123();
    t.get();
    t.get();
    assert_eq!(t.get_highlight(), vec![10, 20]);
    // Reading the highlight moves no boundary: asking again gives the same.
    assert_eq!(t.get_highlight(), vec![10, 20]);
}

#[test]
fn give_up_discards_then_replays() {
    // Three probes, a discard: the same items come again.
    let mut t = tape_123();
    let first = t.get();
    t.get();
    t.get();
    t.give_up();
    assert_eq!(t.get_highlight(), Vec::<u32>::new());
    assert_eq!(t.get(), first);
    assert_eq!(t.get(), 20);
    assert_eq!(t.get(), 30);
}

#[test]
fn move_on_commits_and_clears() {
    // Probe two, commit, probe one, step back, probe again: the
    // highlight holds exactly the third item.
    let mut t = tape_123();
    t.get();
    t.get();
    t.move_on();
    assert_eq!(t.get_highlight(), Vec::<u32>::new());
    t.get();
    t.unget();
    let third = t.get();
    assert_eq!(third, 30);
    assert_eq!(t.get_highlight(), vec![30]);
}

#[test]
fn unget_then_get_is_identity() {
    let mut t = tape_123();
    t.get();
    t.get();
    let before = t.get_highlight();
    t.unget();
    assert_eq!(t.get_highlight(), vec![10]);
    let again = t.get();
    assert_eq!(again, 20);
    assert_eq!(t.get_highlight(), before);
}

#[test]
fn shrink_drops_first_item_only() {
    // Three probes, one shrink: the highlight keeps items two and
    // three, the tail having advanced by one.
    let mut t = tape_123();
    t.get();
    t.get();
    t.get();
    t.shrink();
    assert_eq!(t.get_highlight(), vec![20, 30]);
}

#[test]
fn validate_returns_highlight_and_commits() {
    let mut t = tape_123();
    t.get();
    t.get();
    let committed = t.validate();
    assert_eq!(committed, vec![10, 20]);
    assert_eq!(t.get_highlight(), Vec::<u32>::new());
    // The committed items are gone: the next probe serves the third item.
    assert_eq!(t.get(), 30);
}

#[test]
fn validate_matches_get_highlight_then_move_on() {
    let mut a = tape_123();
    let mut b = tape_123();
    a.get();
    a.get();
    b.get();
    b.get();
    let via_validate = a.validate();
    let via_parts = b.get_highlight();
    b.move_on();
    assert_eq!(via_validate, via_parts);
    assert_eq!(a.get_highlight(), b.get_highlight());
    assert_eq!(a.get(), b.get());
}

#[test]
fn replay_after_give_up_spans_ungets_too() {
    let mut t = SeqTape::new(vec![1u32, 2, 3, 4], 0);
    t.get();
    t.get();
    t.unget();
    t.get();
    t.give_up();
    assert_eq!(t.get(), 1);
    assert_eq!(t.get(), 2);
    assert_eq!(t.get(), 3);
    assert_eq!(t.get(), 4);
}

#[test]
fn shrink_then_commit_keeps_later_items_reachable() {
    let mut t = tape_123();
    t.get();
    t.get();
    t.shrink();
    t.move_on();
    assert_eq!(t.get(), 30);
}

#[test]
fn new_bytes_reserves_zero() {
    let mut t = SeqTape::new_bytes(vec![b'a', b'b']);
    assert_eq!(t.get(), b'a');
    assert_eq!(t.get(), b'b');
    assert_eq!(t.get(), 0);
    assert_eq!(t.get_endind(), 0);
}

#[test]
fn get_endind_reports_chosen_indicator() {
    let t = SeqTape::new(Vec::<u32>::new(), 42);
    assert_eq!(t.get_endind(), 42);
}

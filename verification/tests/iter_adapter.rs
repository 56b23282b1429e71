//! The iteration adapter over a tape.

use lexbuf::LexBuf;
use lexbuf::SeqTape;

#[test]
fn next_serves_items_then_reports_end() {
    // An exhausted backing store makes `next` report no more items
    // from the first end-indicator probe onward.
    let t = SeqTape::new_bytes(vec![b'x', b'y']);
    let mut it = t.iter();
    assert_eq!(it.next(), Some(b'x'));
    assert_eq!(it.next(), Some(b'y'));
    assert_eq!(it.next(), None);
    assert_eq!(it.next(), None);
}

#[test]
fn next_extends_highlight_even_past_end() {
    let t = SeqTape::new_bytes(vec![b'x']);
    let mut it = t.iter();
    it.next();
    it.next();
    let t = it.into_inner();
    // Both probes extended the highlight, the end probe included.
    assert_eq!(t.get_highlight(), vec![b'x', 0]);
}

#[test]
fn next_stops_at_custom_end_indicator() {
    let t = SeqTape::new(vec![5u32, 6, 99, 7], 99);
    let mut it = t.iter();
    assert_eq!(it.next(), Some(5));
    assert_eq!(it.next(), Some(6));
    // The indicator occurring in data reads as end-of-input: that is the
    // caveat of the indicator-by-value convention.
    assert_eq!(it.next(), None);
}

#[test]
fn a_new_adapter_continues_from_the_current_head() {
    let t = SeqTape::new(vec![1u32, 2, 3], 0);
    let mut it = t.iter();
    assert_eq!(it.next(), Some(1));
    let t = it.into_inner();
    let mut it = t.iter();
    assert_eq!(it.next(), Some(2));
    let mut t = it.into_inner();
    assert_eq!(t.get_highlight(), vec![1, 2]);
}

#[test]
fn adapter_drives_token_recognition() {
    // Probe a run of digits through the adapter, give the non-digit
    // back, and commit the token.
    let t = SeqTape::new_bytes(b"42x".to_vec());
    let mut it = t.iter();
    let mut digits: u32 = 0;
    while let Some(c) = it.next() {
        if !c.is_ascii_digit() {
            break;
        }
        digits += 1;
    }
    let mut t = it.into_inner();
    t.unget();
    let token = t.validate();
    assert_eq!(digits, 2);
    assert_eq!(token, b"42".to_vec());
    assert_eq!(t.get(), b'x');
}

use chanselect::handle::Token;
use chanselect::ops::{Operation, Selected};
use chanselect::select::{finish_recv, finish_send, RecvError, SendError};
use chanselect::shuffle::shuffle_entries;
use chanselect::timing::earliest_deadline;
use crossbeam_utils::sync::Parker;

#[test]
fn selected_encoding_sentinels() {
    assert!(Selected::from(0) == Selected::Waiting);
    assert!(Selected::from(1) == Selected::Aborted);
    assert!(Selected::from(2) == Selected::Disconnected);
    assert_eq!(Selected::Waiting.into_usize(), 0);
    assert_eq!(Selected::Aborted.into_usize(), 1);
    assert_eq!(Selected::Disconnected.into_usize(), 2);
}

#[test]
fn selected_encoding_operation_roundtrip() {
    let s = Selected::from(7);
    assert!(s == Selected::Operation(Operation(7)));
    assert_eq!(s.into_usize(), 7);
    let big = usize::MAX;
    assert_eq!(Selected::from(big).into_usize(), big);
}

#[test]
fn hook_avoids_sentinels_and_is_stable() {
    let mut x: u64 = 5;
    let op1 = Operation::hook(&mut x);
    let op2 = Operation::hook(&mut x);
    assert!(op1.0 > 2);
    assert!(op1 == op2);
    assert_eq!(x, 5);
    let mut y: u64 = 6;
    let op3 = Operation::hook(&mut y);
    assert!(op1 != op3);
}

#[test]
fn token_default_is_empty() {
    let t = Token::default();
    assert_eq!(t.slot, 0);
    assert_eq!(t.stamp, 0);
    assert_eq!(t.tag, 0);
}

#[test]
fn earliest_deadline_picks_minimum() {
    let ds = vec![None, Some(3u64), Some(9u64)];
    assert_eq!(earliest_deadline(Some(5), &ds), Some(3));
    assert_eq!(earliest_deadline(None, &ds), Some(3));
    assert_eq!(earliest_deadline(Some(2), &ds), Some(2));
    let none: Vec<Option<u64>> = vec![None, None];
    assert_eq!(earliest_deadline(None, &none), None);
    let empty: Vec<Option<u64>> = Vec::new();
    assert_eq!(earliest_deadline(Some(4), &empty), Some(4));
    assert_eq!(earliest_deadline(None, &empty), None);
}

#[test]
fn shuffle_keeps_the_entries() {
    let mut v: Vec<usize> = (0..50).collect();
    shuffle_entries(&mut v);
    assert_eq!(v.len(), 50);
    let mut sorted = v.clone();
    sorted.sort();
    let expect: Vec<usize> = (0..50).collect();
    assert_eq!(sorted, expect);
}

#[test]
fn shuffle_changes_order_sometimes() {
    // With 20 elements, 100 shuffles that all leave the list unchanged do
    // not happen with a working permutation.
    let original: Vec<usize> = (0..20).collect();
    let mut changed = false;
    for _ in 0..100 {
        let mut v = original.clone();
        shuffle_entries(&mut v);
        if v != original {
            changed = true;
            break;
        }
    }
    assert!(changed);
}

#[test]
fn finish_send_maps_exactly() {
    assert_eq!(finish_send::<u32>(Ok(())), Ok(()));
    assert_eq!(finish_send(Err(17u32)), Err(SendError(17u32)));
}

#[test]
fn finish_recv_maps_exactly() {
    assert_eq!(finish_recv(Ok(33u32)), Ok(33u32));
    assert_eq!(finish_recv::<u32>(Err(())), Err(RecvError));
}

#[test]
fn context_slot_has_a_single_winner() {
    let p = Parker::new();
    let cx = chanselect::context::Context::new(p.unparker().clone());
    assert!(cx.selected() == Selected::Waiting);
    // The first attempt wins the slot.
    assert!(cx.try_select(Selected::Aborted).is_ok());
    // Every later attempt loses and observes the winner.
    match cx.try_select(Selected::Disconnected) {
        Ok(()) => panic!("second attempt must not win"),
        Err(observed) => assert!(observed == Selected::Aborted),
    }
    assert!(cx.selected() == Selected::Aborted);
    // After a reset the slot can be won again.
    cx.reset();
    assert!(cx.selected() == Selected::Waiting);
    assert!(cx.try_select(Selected::Disconnected).is_ok());
    assert!(cx.selected() == Selected::Disconnected);
}

#[test]
fn context_clone_shares_the_slot() {
    let p = Parker::new();
    let cx = chanselect::context::Context::new(p.unparker().clone());
    let peer = cx.clone();
    let mut x: u64 = 0;
    let op = Operation::hook(&mut x);
    assert!(peer.try_select(Selected::Operation(op)).is_ok());
    // The owner sees the peer's commitment, so the wait returns at once.
    let got = cx.wait_until(&p, None);
    assert!(got == Selected::Operation(op));
}

#[test]
fn context_wait_until_deadline_aborts() {
    let p = Parker::new();
    let cx = chanselect::context::Context::new(p.unparker().clone());
    // A deadline in the past: the wait aborts the select itself.
    let got = cx.wait_until(&p, Some(0));
    assert!(got == Selected::Aborted);
    assert!(cx.selected() == Selected::Aborted);
}

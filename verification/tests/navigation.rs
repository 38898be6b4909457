//! Tests of the response cache and the navigation state machine.

use paxbot::cache::ResponseCache;
use paxbot::navigate::{handle_navigation_signal, next_backward, next_forward, SignalKind};
use paxbot::render::{RenderableMessage, RenderableResponse};

fn page(text: &str) -> RenderableMessage {
    RenderableMessage { content: String::from(text), embed: None }
}

fn three_pages() -> RenderableResponse {
    RenderableResponse {
        index: 0,
        messages: vec![page("one"), page("two"), page("three")],
    }
}

fn one_page() -> RenderableResponse {
    RenderableResponse { index: 0, messages: vec![page("only")] }
}

#[test]
fn insert_then_get_round_trips() {
    let mut cache = ResponseCache::new();
    let resp = three_pages();
    cache.insert(10, 20, resp.clone());
    let got = cache.get(10, 20).unwrap();
    assert_eq!(got.index, 0);
    assert_eq!(got.messages, resp.messages);
}

#[test]
fn insert_overwrites_existing_entry() {
    let mut cache = ResponseCache::new();
    cache.insert(10, 20, three_pages());
    cache.insert(10, 20, one_page());
    let got = cache.get(10, 20).unwrap();
    assert_eq!(got.messages.len(), 1);
    assert_eq!(got.messages[0].content, "only");
}

#[test]
fn get_on_untracked_key_is_none() {
    let mut cache = ResponseCache::new();
    cache.insert(10, 20, three_pages());
    assert!(cache.get(10, 21).is_none());
    assert!(cache.get(11, 20).is_none());
}

#[test]
fn forward_steps_wrap_after_page_count() {
    let mut cache = ResponseCache::new();
    cache.insert(1, 2, three_pages());
    let a = handle_navigation_signal(&mut cache, 1, 2, SignalKind::Forward, false);
    let b = handle_navigation_signal(&mut cache, 1, 2, SignalKind::Forward, false);
    let c = handle_navigation_signal(&mut cache, 1, 2, SignalKind::Forward, false);
    assert_eq!(a, Some(1));
    assert_eq!(b, Some(2));
    assert_eq!(c, Some(0));
    assert_eq!(cache.get(1, 2).unwrap().index, 0);
}

#[test]
fn backward_steps_wrap_after_page_count() {
    let mut cache = ResponseCache::new();
    cache.insert(1, 2, three_pages());
    let a = handle_navigation_signal(&mut cache, 1, 2, SignalKind::Backward, false);
    let b = handle_navigation_signal(&mut cache, 1, 2, SignalKind::Backward, false);
    let c = handle_navigation_signal(&mut cache, 1, 2, SignalKind::Backward, false);
    assert_eq!(a, Some(2));
    assert_eq!(b, Some(1));
    assert_eq!(c, Some(0));
    assert_eq!(cache.get(1, 2).unwrap().index, 0);
}

#[test]
fn single_page_stays_at_index_zero() {
    let mut cache = ResponseCache::new();
    cache.insert(1, 2, one_page());
    assert_eq!(handle_navigation_signal(&mut cache, 1, 2, SignalKind::Forward, false), Some(0));
    assert_eq!(handle_navigation_signal(&mut cache, 1, 2, SignalKind::Backward, false), Some(0));
    assert_eq!(cache.get(1, 2).unwrap().index, 0);
}

#[test]
fn own_signals_are_ignored() {
    let mut cache = ResponseCache::new();
    cache.insert(1, 2, three_pages());
    assert_eq!(handle_navigation_signal(&mut cache, 1, 2, SignalKind::Forward, true), None);
    assert_eq!(cache.get(1, 2).unwrap().index, 0);
}

#[test]
fn non_navigation_signals_are_ignored() {
    let mut cache = ResponseCache::new();
    cache.insert(1, 2, three_pages());
    assert_eq!(handle_navigation_signal(&mut cache, 1, 2, SignalKind::Other, false), None);
    assert_eq!(cache.get(1, 2).unwrap().index, 0);
}

#[test]
fn signals_on_untracked_keys_are_ignored() {
    let mut cache = ResponseCache::new();
    cache.insert(1, 2, three_pages());
    assert_eq!(handle_navigation_signal(&mut cache, 9, 9, SignalKind::Forward, false), None);
    assert!(cache.get(9, 9).is_none());
    assert_eq!(cache.get(1, 2).unwrap().index, 0);
}

#[test]
fn navigation_keeps_other_entries_untouched() {
    let mut cache = ResponseCache::new();
    cache.insert(1, 2, three_pages());
    cache.insert(3, 4, three_pages());
    handle_navigation_signal(&mut cache, 1, 2, SignalKind::Forward, false);
    assert_eq!(cache.get(1, 2).unwrap().index, 1);
    assert_eq!(cache.get(3, 4).unwrap().index, 0);
}

#[test]
fn step_functions_wrap_at_bounds() {
    assert_eq!(next_forward(0, 3), 1);
    assert_eq!(next_forward(2, 3), 0);
    assert_eq!(next_backward(1, 3), 0);
    assert_eq!(next_backward(0, 3), 2);
    assert_eq!(next_forward(0, 1), 0);
    assert_eq!(next_backward(0, 1), 0);
}

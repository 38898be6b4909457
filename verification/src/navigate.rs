//! The navigation controller: reacts to external navigation signals on a
//! tracked message by moving the cached response one page forward or
//! backward, with wraparound. Signals sent by the process itself, signals
//! of any other kind, and signals on untracked messages are ignored.

use vstd::prelude::*;
use vstd::arithmetic::div_mod::{lemma_small_mod, lemma_sub_mod_noop};

use crate::cache::ResponseCache;

verus! {

/// The kind of an inbound signal, as the surrounding application read it.
#[derive(Clone, Copy, Debug, Eq, PartialEq)]
pub enum SignalKind {
    /// A request for the previous page.
    Backward,
    /// A request for the next page.
    Forward,
    /// Anything else: a feedback or unrelated signal.
    Other,
}

/// The page index reached by stepping forward once, with wraparound.
pub open spec fn forward_index(i: int, len: int) -> int {
    if i + 1 < len {
        i + 1
    } else {
        0
    }
}

/// The page index reached by stepping backward once, with wraparound.
pub open spec fn backward_index(i: int, len: int) -> int {
    if i > 0 {
        i - 1
    } else {
        len - 1
    }
}

/// Stepping forward is addition by one modulo the page count.
pub proof fn lemma_forward_is_mod(i: int, len: int)
    requires
        0 <= i < len,
    ensures
        forward_index(i, len) == (i + 1) % len,
{
    if i + 1 < len {
        lemma_small_mod((i + 1) as nat, len as nat);
    } else {
        assert((i + 1) % len == 0) by {
            assert(i + 1 == len);
            assert(len % len == 0) by {
                vstd::arithmetic::div_mod::lemma_mod_self_0(len);
            }
        }
    }
}

/// Stepping backward is subtraction by one modulo the page count.
pub proof fn lemma_backward_is_mod(i: int, len: int)
    requires
        0 <= i < len,
    ensures
        backward_index(i, len) == (i - 1 + len) % len,
{
    if i > 0 {
        vstd::arithmetic::div_mod::lemma_mod_add_multiples_vanish(i - 1, len);
        lemma_small_mod((i - 1) as nat, len as nat);
    } else {
        lemma_small_mod((len - 1) as nat, len as nat);
    }
}

/// Steps forward once; the new index stays within the page count.
pub fn next_forward(index: usize, len: usize) -> (r: usize)
    requires
        1 <= len,
        index < len,
    ensures
        r == forward_index(index as int, len as int),
        r < len,
{
    if index < len - 1 {
        index + 1
    } else {
        0
    }
}

/// Steps backward once; the new index stays within the page count.
pub fn next_backward(index: usize, len: usize) -> (r: usize)
    requires
        1 <= len,
        index < len,
    ensures
        r == backward_index(index as int, len as int),
        r < len,
{
    if index > 0 {
        index - 1
    } else {
        len - 1
    }
}

/// The index reached by stepping forward `k` times from `i`.
pub open spec fn iter_forward(i: int, len: int, k: nat) -> int
    decreases k,
{
    if k == 0 {
        i
    } else {
        forward_index(iter_forward(i, len, (k - 1) as nat), len)
    }
}

/// The index reached by stepping backward `k` times from `i`.
pub open spec fn iter_backward(i: int, len: int, k: nat) -> int
    decreases k,
{
    if k == 0 {
        i
    } else {
        backward_index(iter_backward(i, len, (k - 1) as nat), len)
    }
}

/// Stepping forward `k` times lands on `(i + k)` modulo the page count.
pub proof fn lemma_iter_forward_mod(i: int, len: int, k: nat)
    requires
        0 <= i < len,
    ensures
        iter_forward(i, len, k) == (i + k) % len,
        0 <= iter_forward(i, len, k) < len,
    decreases k,
{
    if k == 0 {
        lemma_small_mod(i as nat, len as nat);
    } else {
        lemma_iter_forward_mod(i, len, (k - 1) as nat);
        let p = iter_forward(i, len, (k - 1) as nat);
        lemma_forward_is_mod(p, len);
        vstd::arithmetic::div_mod::lemma_add_mod_noop_right(1int, i + k - 1, len);
    }
}

/// Stepping backward `k` times lands on `(i - k)` modulo the page count.
pub proof fn lemma_iter_backward_mod(i: int, len: int, k: nat)
    requires
        0 <= i < len,
    ensures
        iter_backward(i, len, k) == (i - k) % len,
        0 <= iter_backward(i, len, k) < len,
    decreases k,
{
    if k == 0 {
        lemma_small_mod(i as nat, len as nat);
    } else {
        lemma_iter_backward_mod(i, len, (k - 1) as nat);
        let p = iter_backward(i, len, (k - 1) as nat);
        lemma_backward_is_mod(p, len);
        vstd::arithmetic::div_mod::lemma_mod_add_multiples_vanish(p - 1, len);
        if len == 1 {
            vstd::arithmetic::div_mod::lemma_mod_multiples_vanish(i - k, 0int, 1int);
            lemma_small_mod(0nat, 1nat);
        } else {
            lemma_small_mod(1nat, len as nat);
            lemma_sub_mod_noop(i - k + 1, 1int, len);
        }
    }
}

/// Stepping forward as many times as there are pages returns to the
/// starting index; so does stepping backward that many times.
pub proof fn lemma_full_cycle(i: int, len: int)
    requires
        0 <= i < len,
    ensures
        iter_forward(i, len, len as nat) == i,
        iter_backward(i, len, len as nat) == i,
{
    lemma_iter_forward_mod(i, len, len as nat);
    lemma_iter_backward_mod(i, len, len as nat);
    vstd::arithmetic::div_mod::lemma_mod_add_multiples_vanish(i, len);
    vstd::arithmetic::div_mod::lemma_mod_sub_multiples_vanish(i, len);
    lemma_small_mod(i as nat, len as nat);
}

/// On a single-page response both steps stay on the only page.
pub proof fn lemma_single_page_stays(i: int)
    requires
        0 <= i < 1,
    ensures
        forward_index(i, 1) == 0,
        backward_index(i, 1) == 0,
{
}

/// Handles one inbound navigation signal: the process's own signals,
/// signals of other kinds, and signals on untracked keys are ignored;
/// otherwise the tracked response moves one page in the signalled
/// direction, with wraparound, and the new page index is returned for
/// re-rendering.
pub fn handle_navigation_signal(
    cache: &mut ResponseCache,
    channel_id: u64,
    message_id: u64,
    kind: SignalKind,
    is_own: bool,
) -> (r: Option<usize>)
    requires
        old(cache).wf(),
    ensures
        final(cache).wf(),
        is_own || kind is Other ==> r == None::<usize> && *final(cache) == *old(cache),
        !is_own && !(kind is Other) && !old(cache)@.contains_key((channel_id, message_id)) ==> r
            == None::<usize> && *final(cache) == *old(cache),
        !is_own && !(kind is Other) && old(cache)@.contains_key((channel_id, message_id)) ==> ({
            let e = old(cache)@[(channel_id, message_id)];
            let ni = if kind is Forward {
                forward_index(e.index, e.messages.len() as int)
            } else {
                backward_index(e.index, e.messages.len() as int)
            };
            r == Some(ni as usize) && final(cache)@ == old(cache)@.insert(
                (channel_id, message_id),
                crate::render::RenderableResponseView { index: ni, messages: e.messages },
            )
        }),
{
    // Ignore own signals
    if is_own {
        return None;
    }
    // Ignore signals that aren't navigation
    match kind {
        SignalKind::Forward => cache.navigate(channel_id, message_id, true),
        SignalKind::Backward => cache.navigate(channel_id, message_id, false),
        SignalKind::Other => None,
    }
}

} // verus!

//! Clipboard change detection with loop suppression: a poll tick emits a
//! `Local` event only for a genuine local change, and applying remote text
//! primes the monitor so the next poll does not re-announce it.

use vstd::prelude::*;

verus! {

/// Where a clipboard event came from.
#[derive(Clone, Debug)]
pub enum ClipboardOrigin {
    Local,
    Remote(String),
}

/// One observed clipboard change.
#[derive(Clone, Debug)]
pub struct ClipboardEvent {
    pub text: String,
    pub timestamp: u64,
    pub origin: ClipboardOrigin,
}

/// Whether one poll tick reading `current` counts as a local change against
/// the last observed text: it must differ and be non-empty.
pub open spec fn spec_is_change(current: Seq<char>, last: Seq<char>) -> bool {
    current != last && current.len() > 0
}

/// Tracks the last observed clipboard text across poll ticks.
pub struct ClipboardMonitor {
    pub last_observed: String,
}

impl ClipboardMonitor {
    /// Starts from the given initial clipboard text, so the first poll does
    /// not announce the text that was already there.
    pub fn new(initial: String) -> (m: ClipboardMonitor)
        ensures
            m.last_observed@ == initial@,
    {
        ClipboardMonitor { last_observed: initial }
    }

    /// One poll tick: emits a `Local` event exactly when `current` is a
    /// non-empty text different from the last observed one, and then
    /// remembers it. Anything else (same text, or an empty read) is ignored
    /// and changes nothing.
    pub fn poll(&mut self, current: String, now: u64) -> (event: Option<ClipboardEvent>)
        ensures
            spec_is_change(current@, old(self).last_observed@) ==> {
                &&& event is Some
                &&& event->0.text@ == current@
                &&& event->0.timestamp == now
                &&& event->0.origin is Local
                &&& final(self).last_observed@ == current@
            },
            !spec_is_change(current@, old(self).last_observed@) ==> {
                &&& event is None
                &&& final(self).last_observed@ == old(self).last_observed@
            },
    {
        if !current.as_str().is_empty() && current != self.last_observed {
            let text = current.clone();
            proof {
                assert(text@ == current@);
            }
            self.last_observed = current;
            Some(
                ClipboardEvent {
                    text,
                    timestamp: now,
                    origin: ClipboardOrigin::Local,
                },
            )
        } else {
            None
        }
    }

    /// Applies text received from a peer: the returned event records the
    /// remote origin, and the monitor remembers the text so that the next
    /// poll reading it back does not misreport it as a new local change.
    pub fn apply_remote(&mut self, text: String, from_peer: String, now: u64) -> (event:
        ClipboardEvent)
        ensures
            final(self).last_observed@ == text@,
            event.text@ == text@,
            event.timestamp == now,
            event.origin is Remote,
            event.origin->Remote_0@ == from_peer@,
    {
        let kept = text.clone();
        proof {
            assert(kept@ == text@);
        }
        self.last_observed = kept;
        ClipboardEvent {
            text,
            timestamp: now,
            origin: ClipboardOrigin::Remote(from_peer),
        }
    }
}

/// Only locally-originated events may go out to peers: a `Remote` event is
/// never re-broadcast.
pub fn should_broadcast(event: &ClipboardEvent) -> (r: bool)
    ensures
        r == (event.origin is Local),
{
    match &event.origin {
        ClipboardOrigin::Local => true,
        ClipboardOrigin::Remote(_) => false,
    }
}

} // verus!

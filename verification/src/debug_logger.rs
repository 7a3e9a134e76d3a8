//! A minimal bus subscriber that keeps count of error events.

use vstd::prelude::*;

use crate::event::{AppEvent, EventListener, EventV};

verus! {

/// Whether an event reports a failure.
pub open spec fn is_error_event(e: EventV) -> bool {
    e is Error
}

/// A listener that watches the stream for error events and counts them,
/// saturating at the counter's maximum.
pub struct DebugLogger {
    errors: u64,
    seen: Ghost<Seq<EventV>>,
}

impl DebugLogger {
    pub fn new() -> (d: Self)
        ensures
            d.observed() == Seq::<EventV>::empty(),
            d.errors_seen() == 0,
    {
        DebugLogger { errors: 0, seen: Ghost(Seq::empty()) }
    }

    /// How many error events this listener has observed.
    pub closed spec fn errors_seen(&self) -> u64 {
        self.errors
    }

    pub fn error_count(&self) -> (n: u64)
        ensures
            n == self.errors_seen(),
    {
        self.errors
    }
}

impl EventListener for DebugLogger {
    closed spec fn observed(&self) -> Seq<EventV> {
        self.seen@
    }

    fn on_event(&mut self, event: &AppEvent)
        ensures
            final(self).observed() == old(self).observed().push(event.deep_view()),
            final(self).errors_seen() as int == (if is_error_event(event.deep_view()) && old(
                self,
            ).errors_seen() < u64::MAX {
                old(self).errors_seen() + 1
            } else {
                old(self).errors_seen() as int
            }),
    {
        match event {
            AppEvent::Error(_) => {
                if self.errors < u64::MAX {
                    self.errors = self.errors + 1;
                }
            },
            _ => {},
        }
        proof {
            self.seen@ = self.seen@.push(event.deep_view());
        }
    }
}

} // verus!

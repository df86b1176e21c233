//! The decisions of the refresh loop: what to do after each thing that
//! can happen while snapshots are produced on a timer.

use vstd::prelude::*;

verus! {

/// What happened.
#[derive(Debug, Clone, Copy, PartialEq, Eq, Structural)]
pub enum StreamEvent {
    /// The cancellation token was tripped.
    Cancelled,
    /// The timer fired.
    Tick,
    /// The tick's work ended: well, or with an error.
    Refreshed { ok: bool },
    /// The snapshot was handed to the channel, or the consumer is gone.
    Sent { delivered: bool },
}

/// What to do next.
#[derive(Debug, Clone, Copy, PartialEq, Eq, Structural)]
pub enum StreamAction {
    /// Wait for the timer or for cancellation.
    Wait,
    /// Run one tick on a worker.
    Refresh,
    /// Send the tick's snapshot.
    Publish,
    /// Leave the loop and drop the sender.
    Stop,
}

/// The refresh loop between events.
#[derive(Debug, Clone, Copy, PartialEq, Eq, Structural)]
pub struct StreamState {
    /// Set once the loop has ended; it never starts again.
    pub stopped: bool,
    /// Snapshots sent so far.
    pub published: u64,
}

impl StreamState {
    /// The action that an event leads to, in a loop that has not stopped.
    pub open spec fn action(event: StreamEvent) -> StreamAction {
        match event {
            StreamEvent::Cancelled => StreamAction::Stop,
            StreamEvent::Tick => StreamAction::Refresh,
            StreamEvent::Refreshed { ok } => if ok {
                StreamAction::Publish
            } else {
                StreamAction::Wait
            },
            StreamEvent::Sent { delivered } => if delivered {
                StreamAction::Wait
            } else {
                StreamAction::Stop
            },
        }
    }

    /// The state after an event.
    pub open spec fn after(self, event: StreamEvent) -> StreamState {
        if self.stopped {
            self
        } else {
            StreamState {
                stopped: Self::action(event) == StreamAction::Stop,
                published: if event == (StreamEvent::Sent { delivered: true }) && self.published
                    < u64::MAX {
                    (self.published + 1) as u64
                } else {
                    self.published
                },
            }
        }
    }

    pub fn new() -> (r: StreamState)
        ensures
            r == (StreamState { stopped: false, published: 0 }),
    {
        StreamState { stopped: false, published: 0 }
    }

    /// Takes an event in and says what to do next. A stopped loop stays
    /// stopped whatever happens.
    pub fn step(&mut self, event: StreamEvent) -> (r: StreamAction)
        ensures
            *final(self) == old(self).after(event),
            r == if old(self).stopped {
                StreamAction::Stop
            } else {
                Self::action(event)
            },
    {
        if self.stopped {
            return StreamAction::Stop;
        }
        match event {
            StreamEvent::Cancelled => {
                self.stopped = true;
                StreamAction::Stop
            },
            StreamEvent::Tick => StreamAction::Refresh,
            StreamEvent::Refreshed { ok } => {
                if ok {
                    StreamAction::Publish
                } else {
                    StreamAction::Wait
                }
            },
            StreamEvent::Sent { delivered } => {
                if delivered {
                    if self.published < u64::MAX {
                        self.published = self.published + 1;
                    }
                    StreamAction::Wait
                } else {
                    self.stopped = true;
                    StreamAction::Stop
                }
            },
        }
    }
}

/// Cancellation stops the loop, and nothing is published after it stopped.
pub proof fn lemma_stopped_stays(s: StreamState, event: StreamEvent)
    ensures
        s.after(StreamEvent::Cancelled).stopped,
        s.stopped ==> s.after(event) == s,
{
}

} // verus!

//! The queue between those who report events and the one who writes them down.
//! It is bounded in events and in bytes, and never waits.
use vstd::prelude::*;

use crate::audit::events::{drop_event, dropped_events, queue_entry, queue_share, queued_event};
use crate::json::{json_text, well_ordered, JsonValue, JsonView};

verus! {

/// How full the queue is, and what it had no room for.
#[derive(Clone, Copy, Debug, PartialEq, Eq, Structural)]
pub struct EventQueue {
    pub capacity: usize,
    pub maximum: usize,
    /// Events that nobody has taken yet.
    pub waiting: usize,
    /// Bytes that are free.
    pub room: usize,
    pub open: bool,
    pub dropped_total: u64,
    /// Events dropped since one was last queued.
    pub dropped_pending: u64,
}

/// An event that goes into the queue, with the bytes it holds there.
pub struct QueuedEvent {
    pub value: JsonValue,
    pub share: u32,
}

/// What becomes of a report.
pub struct Emission {
    pub sent: Vec<QueuedEvent>,
    /// How many events were dropped in a row, when an operator is to be told.
    pub warning: Option<u64>,
}

pub struct EmissionView {
    pub sent: Seq<(JsonView, int)>,
    pub warning: Option<u64>,
}

pub open spec fn sent_view(list: Seq<QueuedEvent>) -> Seq<(JsonView, int)> {
    list.map_values(|event: QueuedEvent| (event.value@, event.share as int))
}

impl View for Emission {
    type V = EmissionView;

    open spec fn view(&self) -> EmissionView {
        EmissionView { sent: sent_view(self.sent@), warning: self.warning }
    }
}

pub open spec fn power_of_two(n: nat) -> bool
    decreases n,
{
    n == 1 || (n > 1 && n % 2 == 0 && power_of_two(n / 2))
}

fn is_power_of_two(n: u64) -> (r: bool)
    ensures
        r == power_of_two(n as nat),
{
    let mut left: u64 = n;
    while left > 1 && left % 2 == 0
        invariant
            power_of_two(n as nat) == power_of_two(left as nat),
        decreases left,
    {
        left = left / 2;
    }
    left == 1
}

/// The queue holds no more than it may.
pub open spec fn within_bounds(queue: EventQueue) -> bool {
    queue.waiting <= queue.capacity && queue.room <= queue.maximum
}

pub open spec fn has_room(queue: EventQueue, share: int) -> bool {
    queue.open && queue.waiting < queue.capacity && share <= queue.room
}

/// The queue with one more event.
pub open spec fn with_event(queue: EventQueue, share: int) -> EventQueue {
    EventQueue {
        waiting: (queue.waiting + 1) as usize,
        room: (queue.room - share) as usize,
        ..queue
    }
}

/// The queue after an event was dropped.
pub open spec fn with_drop(queue: EventQueue) -> EventQueue {
    EventQueue {
        dropped_pending: (queue.dropped_pending + 1) as u64,
        dropped_total: if queue.dropped_total < u64::MAX {
            (queue.dropped_total + 1) as u64
        } else {
            0
        },
        ..queue
    }
}

/// The queue and what is to be done after a dropped event. An operator is told
/// when the number of events dropped in a row reaches a power of two.
pub open spec fn refused(queue: EventQueue) -> (EventQueue, EmissionView) {
    let after = with_drop(queue);
    (
        after,
        EmissionView {
            sent: Seq::empty(),
            warning: if power_of_two(after.dropped_pending as nat) {
                Some(after.dropped_pending)
            } else {
                None
            },
        },
    )
}

/// What becomes of an event that is ready for the queue.
pub open spec fn offered(queue: EventQueue, entry: JsonView, share: int) -> (
    EventQueue,
    EmissionView,
) {
    if has_room(queue, share) {
        (
            EventQueue { dropped_pending: 0, ..with_event(queue, share) },
            EmissionView { sent: seq![(entry, share)], warning: None },
        )
    } else {
        refused(queue)
    }
}

/// What becomes of a reported event. The first event that finds room again is
/// followed by one that tells how many did not.
pub open spec fn emission(
    queue: EventQueue,
    event: JsonView,
    now: Seq<char>,
    secret: Seq<char>,
    limit: int,
) -> (EventQueue, EmissionView) {
    let entry = queued_event(event, now, secret, limit);
    let (first_queue, first) = offered(queue, entry, queue_share(json_text(entry), limit));
    if first.sent.len() > 0 && queue.dropped_pending > 0 {
        let note = queued_event(drop_event(queue.dropped_pending), now, secret, limit);
        let (second_queue, second) = offered(
            first_queue,
            note,
            queue_share(json_text(note), limit),
        );
        (
            second_queue,
            EmissionView { sent: first.sent + second.sent, warning: second.warning },
        )
    } else {
        (first_queue, first)
    }
}

pub open spec fn total_share(sent: Seq<(JsonView, int)>) -> int
    decreases sent.len(),
{
    if sent.len() == 0 {
        0
    } else {
        total_share(sent.drop_last()) + sent.last().1
    }
}

/// What is sent fits into the queue, and what is not sent is counted.
pub proof fn emissions_stay_within_bounds(
    queue: EventQueue,
    event: JsonView,
    now: Seq<char>,
    secret: Seq<char>,
    limit: int,
)
    requires
        within_bounds(queue),
        queue.dropped_pending < u64::MAX,
    ensures
        ({
            let (after, out) = emission(queue, event, now, secret, limit);
            &&& within_bounds(after)
            &&& after.waiting == queue.waiting + out.sent.len()
            &&& after.room == queue.room - total_share(out.sent)
            &&& out.sent.len() == 0 ==> after.dropped_pending == queue.dropped_pending + 1
            &&& out.sent.len() > 0 && out.warning is None ==> after.dropped_pending == 0
        }),
{
    reveal_with_fuel(total_share, 3);
    let (after, out) = emission(queue, event, now, secret, limit);
    let entry = queued_event(event, now, secret, limit);
    let (first_queue, first) = offered(queue, entry, queue_share(json_text(entry), limit));
    if first.sent.len() > 0 && queue.dropped_pending > 0 {
        let note = queued_event(drop_event(queue.dropped_pending), now, secret, limit);
        let share = queue_share(json_text(note), limit);
        if has_room(first_queue, share) {
            assert(out.sent =~= first.sent.push((note, share)));
            assert(out.sent.drop_last() =~= first.sent);
        } else {
            assert(out.sent =~= first.sent);
            assert(power_of_two(1));
        }
    }
    if out.sent.len() == 1 {
        assert(out.sent.drop_last() =~= Seq::empty());
    }
    if first.sent.len() == 1 {
        assert(first.sent.drop_last() =~= Seq::empty());
    }
}

impl EventQueue {
    pub fn new(capacity: usize, maximum: usize) -> (queue: EventQueue)
        ensures
            queue == (EventQueue {
                capacity,
                maximum,
                waiting: 0,
                room: maximum,
                open: true,
                dropped_total: 0,
                dropped_pending: 0,
            }),
            within_bounds(queue),
    {
        EventQueue {
            capacity,
            maximum,
            waiting: 0,
            room: maximum,
            open: true,
            dropped_total: 0,
            dropped_pending: 0,
        }
    }

    /// Offer an event that is ready for the queue.
    pub fn offer(&mut self, value: JsonValue, share: u32) -> (done: Emission)
        requires
            old(self).dropped_pending < u64::MAX,
        ensures
            (*final(self), done@) == offered(*old(self), value@, share as int),
    {
        let mut sent: Vec<QueuedEvent> = Vec::new();
        let size = share as usize;
        if self.open && self.waiting < self.capacity && size <= self.room {
            self.waiting = self.waiting + 1;
            self.room = self.room - size;
            self.dropped_pending = 0;
            sent.push(QueuedEvent { value, share });
            let done = Emission { sent, warning: None };
            proof {
                assert(done@.sent =~= seq![(value@, share as int)]);
            }
            done
        } else {
            self.dropped_pending = self.dropped_pending + 1;
            self.dropped_total = if self.dropped_total < u64::MAX {
                self.dropped_total + 1
            } else {
                0
            };
            let warning = if is_power_of_two(self.dropped_pending) {
                Some(self.dropped_pending)
            } else {
                None
            };
            let done = Emission { sent, warning };
            proof {
                assert(done@.sent =~= Seq::empty());
            }
            done
        }
    }

    /// Report an event.
    pub fn emit(&mut self, event: JsonValue, now: &str, auth_token: &str, limit: usize) -> (done:
        Emission)
        requires
            well_ordered(event@),
            old(self).dropped_pending < u64::MAX,
        ensures
            (*final(self), done@) == emission(
                *old(self),
                event@,
                now@,
                auth_token@,
                limit as int,
            ),
    {
        let lost = self.dropped_pending;
        let (entry, share) = queue_entry(event, now, auth_token, limit);
        let mut first = self.offer(entry, share);
        proof {
            assert(first@.sent.len() == first.sent@.len());
        }
        if first.sent.len() > 0 && lost > 0 {
            let (note, note_share) = queue_entry(dropped_events(lost), now, auth_token, limit);
            let mut second = self.offer(note, note_share);
            let ghost before = (first@, second@);
            first.sent.append(&mut second.sent);
            let done = Emission { sent: first.sent, warning: second.warning };
            proof {
                assert(done@.sent =~= before.0.sent + before.1.sent);
            }
            done
        } else {
            first
        }
    }

    /// The writer takes an event out of the queue. Its bytes stay held until it
    /// is written.
    pub fn take(&mut self)
        ensures
            *final(self) == (EventQueue {
                waiting: if old(self).waiting > 0 {
                    (old(self).waiting - 1) as usize
                } else {
                    0
                },
                ..*old(self)
            }),
            within_bounds(*old(self)) ==> within_bounds(*final(self)),
    {
        if self.waiting > 0 {
            self.waiting = self.waiting - 1;
        }
    }

    /// An event was written, and gives its bytes back.
    pub fn give_back(&mut self, share: u32)
        requires
            old(self).room + share <= old(self).maximum,
        ensures
            *final(self) == (EventQueue {
                room: (old(self).room + share) as usize,
                ..*old(self)
            }),
            within_bounds(*old(self)) ==> within_bounds(*final(self)),
    {
        self.room = self.room + share as usize;
    }

    /// Nothing is queued any more.
    pub fn close(&mut self)
        ensures
            *final(self) == (EventQueue { open: false, ..*old(self) }),
    {
        self.open = false;
    }
}

}

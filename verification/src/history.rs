//! The chat history: the last messages, up to a fixed number.

use vstd::prelude::*;
use ringbuffer::{AllocRingBuffer, RingBuffer};
use crate::message::{message_views, Message, MessageView};

verus! {

/// `ringbuffer::AllocRingBuffer`, the ring buffer that holds the history.
/// What it holds is spoken of through [`ring_contents`] and
/// [`ring_capacity`].
#[verifier::external_type_specification]
#[verifier::external_body]
#[verifier::reject_recursive_types(T)]
pub struct ExAllocRingBuffer<T>(AllocRingBuffer<T>);

/// The messages in a ring buffer, oldest first.
pub uninterp spec fn ring_contents(ring: AllocRingBuffer<Message>) -> Seq<MessageView>;

/// The number of messages that a ring buffer was made to hold.
pub uninterp spec fn ring_capacity(ring: AllocRingBuffer<Message>) -> nat;

/// The largest history that can be asked for.  A buffer of this many
/// messages can be laid out in memory on 32-bit and 64-bit machines alike.
pub const MAX_HISTORY: usize = 0x100_0000;

/// `history` with `message` behind its last entry.  A history that already
/// holds `capacity` messages loses its oldest one.
pub open spec fn appended(history: Seq<MessageView>, capacity: nat, message: MessageView) -> Seq<
    MessageView,
> {
    if history.len() < capacity {
        history.push(message)
    } else {
        history.drop_first().push(message)
    }
}

/// `ringbuffer::AllocRingBuffer::new`.  The contract claims an empty
/// buffer that was made to hold `capacity` items.  The function panics on a
/// capacity of zero, and on one whose buffer cannot be laid out; the
/// precondition leaves both out.
#[verifier::external_body]
fn ring_new(capacity: usize) -> (ring: AllocRingBuffer<Message>)
    requires
        0 < capacity <= MAX_HISTORY,
    ensures
        ring_contents(ring) == Seq::<MessageView>::empty(),
        ring_capacity(ring) == capacity,
{
    AllocRingBuffer::new(capacity)
}

/// `ringbuffer::RingBuffer::enqueue` on an `AllocRingBuffer`.  The
/// contract claims that the item goes behind the others, that a buffer
/// which holds as many items as it was made for gives up its oldest item
/// to make room, and that the capacity stays.
#[verifier::external_body]
fn ring_enqueue(ring: &mut AllocRingBuffer<Message>, message: Message)
    ensures
        ring_contents(*final(ring)) == appended(
            ring_contents(*old(ring)),
            ring_capacity(*old(ring)),
            message@,
        ),
        ring_capacity(*final(ring)) == ring_capacity(*old(ring)),
{
    let _ = ring.enqueue(message);
}

/// `ringbuffer::RingBuffer::to_vec` on an `AllocRingBuffer`.  The contract
/// claims clones of all items, oldest first; a clone of a message has the
/// content of the message.
#[verifier::external_body]
fn ring_to_vec(ring: &AllocRingBuffer<Message>) -> (messages: Vec<Message>)
    ensures
        message_views(messages@) == ring_contents(*ring),
{
    ring.to_vec()
}

/// What belongs to the chat alone: its history.
#[derive(Debug)]
pub struct App {
    history: AllocRingBuffer<Message>,
}

/// The mathematical content of an [`App`].
pub struct AppView {
    /// The messages, oldest first.
    pub history: Seq<MessageView>,
    /// The number of messages that the history holds at most.
    pub capacity: nat,
}

impl View for App {
    type V = AppView;

    closed spec fn view(&self) -> AppView {
        AppView { history: ring_contents(self.history), capacity: ring_capacity(self.history) }
    }
}

impl AppView {
    /// The history has room for at least one message and never holds more
    /// than its capacity.
    pub open spec fn wf(self) -> bool {
        0 < self.capacity && self.history.len() <= self.capacity
    }
}

impl App {
    /// A chat with an empty history for `capacity` messages; `None` where
    /// the capacity is zero or above [`MAX_HISTORY`].
    pub fn new(capacity: usize) -> (res: Option<App>)
        ensures
            res is Some <==> 0 < capacity <= MAX_HISTORY,
            res matches Some(app) ==> app@ == (AppView {
                history: Seq::empty(),
                capacity: capacity as nat,
            }),
    {
        if capacity == 0 || capacity > MAX_HISTORY {
            None
        } else {
            Some(App { history: ring_new(capacity) })
        }
    }

    /// Appends `message` to the history; see [`appended`].
    pub fn enqueue(&mut self, message: Message)
        ensures
            final(self)@ == (AppView {
                history: appended(old(self)@.history, old(self)@.capacity, message@),
                ..old(self)@
            }),
    {
        ring_enqueue(&mut self.history, message);
    }

    /// A copy of the history, oldest message first.
    pub fn history(&self) -> (messages: Vec<Message>)
        ensures
            message_views(messages@) == self@.history,
    {
        ring_to_vec(&self.history)
    }
}

} // verus!

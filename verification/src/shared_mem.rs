//! The region both processes map: a queue of requests from client to server
//! and a queue of responses back, each a ring buffer of `Q_CAPACITY`
//! messages with its front, rear and size.

use crate::message::{zeros, Message, MessageType, KEY_SIZE, VALUE_SIZE};
use vstd::prelude::*;

verus! {

/// The number of messages each queue can hold.
pub const Q_CAPACITY: usize = 10;

/// The two message queues of the shared region.
pub struct SharedMemory {
    // request
    pub req_buffer: [Message; Q_CAPACITY],
    pub req_front: usize,
    pub req_rear: usize,
    pub req_size: usize,
    // response
    pub res_buffer: [Message; Q_CAPACITY],
    pub res_front: usize,
    pub res_rear: usize,
    pub res_size: usize,
}

/// Why a queue operation was refused.
#[derive(Debug, Clone, Copy, PartialEq, Eq, Structural)]
pub enum QueueError {
    /// The queue already holds `Q_CAPACITY` messages.
    Full,
    /// The queue holds no message.
    Empty,
}

/// Whether `m` is a message of type `Empty` with both fields zeroed.
pub open spec fn is_blank(m: Message) -> bool {
    &&& m.typ == MessageType::Empty
    &&& m.key@ == zeros(KEY_SIZE as nat)
    &&& m.value@ == zeros(VALUE_SIZE as nat)
}

/// A ring's indices are consistent: front and rear are slots of the buffer,
/// it holds at most `Q_CAPACITY` messages, and the rear is `size` slots
/// after the front.
pub open spec fn ring_wf(front: usize, rear: usize, size: usize) -> bool {
    &&& front < Q_CAPACITY
    &&& rear < Q_CAPACITY
    &&& size <= Q_CAPACITY
    &&& rear as int == (front + size) % (Q_CAPACITY as int)
}

/// The messages a ring holds, oldest first.
pub open spec fn ring_contents(buffer: Seq<Message>, front: usize, size: usize) -> Seq<Message> {
    Seq::new(size as nat, |i: int| buffer[(front + i) % (Q_CAPACITY as int)])
}

/// Writes `m` into the rear slot of a ring and advances the rear. On a
/// consistent ring with room, the ring then holds its messages followed by
/// `m`.
fn ring_push(buffer: &mut [Message; Q_CAPACITY], front: usize, rear: &mut usize, size: &mut usize, m: Message)
    requires
        *old(rear) < Q_CAPACITY,
        *old(size) < usize::MAX,
    ensures
        final(buffer)@ == old(buffer)@.update(*old(rear) as int, m),
        *final(rear) as int == (*old(rear) + 1) % (Q_CAPACITY as int),
        *final(size) == *old(size) + 1,
        ring_wf(front, *old(rear), *old(size)) && *old(size) < Q_CAPACITY ==> {
            &&& ring_wf(front, *final(rear), *final(size))
            &&& ring_contents(final(buffer)@, front, *final(size))
                == ring_contents(old(buffer)@, front, *old(size)).push(m)
        },
{
    let r = *rear;
    buffer[r] = m;
    *rear = (r + 1) % Q_CAPACITY;
    *size = *size + 1;
    proof {
        if ring_wf(front, *old(rear), *old(size)) && *old(size) < Q_CAPACITY {
            let ob = old(buffer)@;
            let nb = buffer@;
            let os = *old(size);
            assert forall|i: int| 0 <= i < os implies
                #[trigger] nb[(front + i) % (Q_CAPACITY as int)] == ob[(front + i) % (Q_CAPACITY as int)] by {
                assert((front + i) % (Q_CAPACITY as int) != r as int);
            }
            assert(ring_contents(nb, front, *size) =~= ring_contents(ob, front, os).push(m));
        }
    }
}

/// Takes the message in the front slot of a ring, leaving a blank message
/// there, and advances the front. On a consistent ring, that is its oldest
/// message, and the ring then holds the rest.
fn ring_pop(buffer: &mut [Message; Q_CAPACITY], front: &mut usize, rear: usize, size: &mut usize) -> (r: Message)
    requires
        *old(front) < Q_CAPACITY,
        *old(size) > 0,
    ensures
        r == old(buffer)@[*old(front) as int],
        final(buffer)@.len() == Q_CAPACITY,
        is_blank(final(buffer)@[*old(front) as int]),
        forall|i: int| 0 <= i < Q_CAPACITY && i != *old(front) ==> final(buffer)@[i] == old(buffer)@[i],
        *final(front) as int == (*old(front) + 1) % (Q_CAPACITY as int),
        *final(size) == *old(size) - 1,
        ring_wf(*old(front), rear, *old(size)) ==> {
            &&& ring_wf(*final(front), rear, *final(size))
            &&& r == ring_contents(old(buffer)@, *old(front), *old(size))[0]
            &&& ring_contents(final(buffer)@, *final(front), *final(size))
                == ring_contents(old(buffer)@, *old(front), *old(size)).drop_first()
        },
{
    let f = *front;
    let m = buffer[f];
    buffer[f] = Message::empty();
    *front = (f + 1) % Q_CAPACITY;
    *size = *size - 1;
    proof {
        if ring_wf(f, rear, *old(size)) {
            let ob = old(buffer)@;
            let nb = buffer@;
            let os = *old(size);
            let nf = *front;
            assert forall|i: int| 0 <= i < os - 1 implies
                #[trigger] nb[(nf + i) % (Q_CAPACITY as int)] == ob[(f + 1 + i) % (Q_CAPACITY as int)] by {
                assert((nf + i) % (Q_CAPACITY as int) == (f + 1 + i) % (Q_CAPACITY as int));
                assert((f + 1 + i) % (Q_CAPACITY as int) != f as int);
            }
            assert(ring_contents(nb, nf, *size) =~= ring_contents(ob, f, os).drop_first());
        }
    }
    m
}

impl SharedMemory {
    /// Both queues have consistent indices.
    pub open spec fn wf(&self) -> bool {
        &&& ring_wf(self.req_front, self.req_rear, self.req_size)
        &&& ring_wf(self.res_front, self.res_rear, self.res_size)
    }

    /// The requests waiting for the server, oldest first.
    pub open spec fn requests(&self) -> Seq<Message> {
        ring_contents(self.req_buffer@, self.req_front, self.req_size)
    }

    /// The responses waiting for the client, oldest first.
    pub open spec fn responses(&self) -> Seq<Message> {
        ring_contents(self.res_buffer@, self.res_front, self.res_size)
    }

    /// The request queue of `self` and `other` is the same.
    pub open spec fn same_request_queue(&self, other: &SharedMemory) -> bool {
        &&& self.req_buffer@ == other.req_buffer@
        &&& self.req_front == other.req_front
        &&& self.req_rear == other.req_rear
        &&& self.req_size == other.req_size
    }

    /// The response queue of `self` and `other` is the same.
    pub open spec fn same_response_queue(&self, other: &SharedMemory) -> bool {
        &&& self.res_buffer@ == other.res_buffer@
        &&& self.res_front == other.res_front
        &&& self.res_rear == other.res_rear
        &&& self.res_size == other.res_size
    }

    /// Puts a request at the rear of the request queue; refused with `Full`,
    /// and nothing changed, when its size is `Q_CAPACITY`. Otherwise the
    /// rear slot must be a slot of the buffer.
    pub fn enqueue_request(&mut self, message: Message) -> (r: Result<(), QueueError>)
        requires
            old(self).req_size == Q_CAPACITY || (old(self).req_rear < Q_CAPACITY && old(self).req_size
                < usize::MAX),
        ensures
            final(self).same_response_queue(old(self)),
            old(self).req_size == Q_CAPACITY ==> r == Err::<(), QueueError>(QueueError::Full)
                && final(self).same_request_queue(old(self)),
            old(self).req_size != Q_CAPACITY ==> {
                &&& r == Ok::<(), QueueError>(())
                &&& final(self).req_buffer@ == old(self).req_buffer@.update(old(self).req_rear as int, message)
                &&& final(self).req_front == old(self).req_front
                &&& final(self).req_rear as int == (old(self).req_rear + 1) % (Q_CAPACITY as int)
                &&& final(self).req_size == old(self).req_size + 1
            },
            ring_wf(old(self).req_front, old(self).req_rear, old(self).req_size) ==> ring_wf(
                final(self).req_front,
                final(self).req_rear,
                final(self).req_size,
            ),
            ring_wf(old(self).req_front, old(self).req_rear, old(self).req_size) && old(self).req_size
                != Q_CAPACITY ==> final(self).requests() == old(self).requests().push(message),
    {
        if self.req_size == Q_CAPACITY {
            return Err(QueueError::Full);
        }
        ring_push(&mut self.req_buffer, self.req_front, &mut self.req_rear, &mut self.req_size, message);
        Ok(())
    }

    /// Puts a response at the rear of the response queue; refused with
    /// `Full`, and nothing changed, when its size is `Q_CAPACITY`. Otherwise
    /// the rear slot must be a slot of the buffer.
    pub fn enqueue_response(&mut self, message: Message) -> (r: Result<(), QueueError>)
        requires
            old(self).res_size == Q_CAPACITY || (old(self).res_rear < Q_CAPACITY && old(self).res_size
                < usize::MAX),
        ensures
            final(self).same_request_queue(old(self)),
            old(self).res_size == Q_CAPACITY ==> r == Err::<(), QueueError>(QueueError::Full)
                && final(self).same_response_queue(old(self)),
            old(self).res_size != Q_CAPACITY ==> {
                &&& r == Ok::<(), QueueError>(())
                &&& final(self).res_buffer@ == old(self).res_buffer@.update(old(self).res_rear as int, message)
                &&& final(self).res_front == old(self).res_front
                &&& final(self).res_rear as int == (old(self).res_rear + 1) % (Q_CAPACITY as int)
                &&& final(self).res_size == old(self).res_size + 1
            },
            ring_wf(old(self).res_front, old(self).res_rear, old(self).res_size) ==> ring_wf(
                final(self).res_front,
                final(self).res_rear,
                final(self).res_size,
            ),
            ring_wf(old(self).res_front, old(self).res_rear, old(self).res_size) && old(self).res_size
                != Q_CAPACITY ==> final(self).responses() == old(self).responses().push(message),
    {
        if self.res_size == Q_CAPACITY {
            return Err(QueueError::Full);
        }
        ring_push(&mut self.res_buffer, self.res_front, &mut self.res_rear, &mut self.res_size, message);
        Ok(())
    }

    /// Takes the request in the front slot of the request queue, leaving a
    /// blank message there; refused with `Empty`, and nothing changed, when
    /// its size is 0. Otherwise the front slot must be a slot of the buffer.
    pub fn dequeue_request(&mut self) -> (r: Result<Message, QueueError>)
        requires
            old(self).req_size == 0 || old(self).req_front < Q_CAPACITY,
        ensures
            final(self).same_response_queue(old(self)),
            old(self).req_size == 0 ==> r == Err::<Message, QueueError>(QueueError::Empty)
                && final(self).same_request_queue(old(self)),
            old(self).req_size > 0 ==> {
                &&& r == Ok::<Message, QueueError>(old(self).req_buffer@[old(self).req_front as int])
                &&& is_blank(final(self).req_buffer@[old(self).req_front as int])
                &&& forall|i: int| 0 <= i < Q_CAPACITY && i != old(self).req_front
                    ==> #[trigger] final(self).req_buffer@[i] == old(self).req_buffer@[i]
                &&& final(self).req_front as int == (old(self).req_front + 1) % (Q_CAPACITY as int)
                &&& final(self).req_rear == old(self).req_rear
                &&& final(self).req_size == old(self).req_size - 1
            },
            ring_wf(old(self).req_front, old(self).req_rear, old(self).req_size) ==> ring_wf(
                final(self).req_front,
                final(self).req_rear,
                final(self).req_size,
            ),
            ring_wf(old(self).req_front, old(self).req_rear, old(self).req_size) && old(self).req_size
                > 0 ==> {
                &&& r == Ok::<Message, QueueError>(old(self).requests()[0])
                &&& final(self).requests() == old(self).requests().drop_first()
            },
    {
        if self.req_size == 0 {
            return Err(QueueError::Empty);
        }
        let m = ring_pop(&mut self.req_buffer, &mut self.req_front, self.req_rear, &mut self.req_size);
        Ok(m)
    }

    /// Takes the response in the front slot of the response queue, leaving a
    /// blank message there; refused with `Empty`, and nothing changed, when
    /// its size is 0. Otherwise the front slot must be a slot of the buffer.
    pub fn dequeue_response(&mut self) -> (r: Result<Message, QueueError>)
        requires
            old(self).res_size == 0 || old(self).res_front < Q_CAPACITY,
        ensures
            final(self).same_request_queue(old(self)),
            old(self).res_size == 0 ==> r == Err::<Message, QueueError>(QueueError::Empty)
                && final(self).same_response_queue(old(self)),
            old(self).res_size > 0 ==> {
                &&& r == Ok::<Message, QueueError>(old(self).res_buffer@[old(self).res_front as int])
                &&& is_blank(final(self).res_buffer@[old(self).res_front as int])
                &&& forall|i: int| 0 <= i < Q_CAPACITY && i != old(self).res_front
                    ==> #[trigger] final(self).res_buffer@[i] == old(self).res_buffer@[i]
                &&& final(self).res_front as int == (old(self).res_front + 1) % (Q_CAPACITY as int)
                &&& final(self).res_rear == old(self).res_rear
                &&& final(self).res_size == old(self).res_size - 1
            },
            ring_wf(old(self).res_front, old(self).res_rear, old(self).res_size) ==> ring_wf(
                final(self).res_front,
                final(self).res_rear,
                final(self).res_size,
            ),
            ring_wf(old(self).res_front, old(self).res_rear, old(self).res_size) && old(self).res_size
                > 0 ==> {
                &&& r == Ok::<Message, QueueError>(old(self).responses()[0])
                &&& final(self).responses() == old(self).responses().drop_first()
            },
    {
        if self.res_size == 0 {
            return Err(QueueError::Empty);
        }
        let m = ring_pop(&mut self.res_buffer, &mut self.res_front, self.res_rear, &mut self.res_size);
        Ok(m)
    }

    /// The region as it is when first created: every byte zero, so both
    /// queues are empty and every slot holds a blank message.
    pub fn zeroed() -> (r: SharedMemory)
        ensures
            r.wf(),
            r.req_front == 0 && r.req_rear == 0 && r.req_size == 0,
            r.res_front == 0 && r.res_rear == 0 && r.res_size == 0,
            r.requests().len() == 0,
            r.responses().len() == 0,
            forall|i: int| 0 <= i < Q_CAPACITY ==> is_blank(#[trigger] r.req_buffer@[i]),
            forall|i: int| 0 <= i < Q_CAPACITY ==> is_blank(#[trigger] r.res_buffer@[i]),
    {
        let blank = Message::empty();
        SharedMemory {
            req_buffer: [blank; Q_CAPACITY],
            req_front: 0,
            req_rear: 0,
            req_size: 0,
            res_buffer: [blank; Q_CAPACITY],
            res_front: 0,
            res_rear: 0,
            res_size: 0,
        }
    }
}

/// Messages leave a queue in the order they entered it: pushing onto an
/// empty queue makes the pushed message the next one out, and pushing onto a
/// non-empty queue keeps its front message and puts the new one last.
pub proof fn lemma_queue_fifo(q: Seq<Message>, m: Message)
    ensures
        q.len() == 0 ==> q.push(m)[0] == m && q.push(m).drop_first() == q,
        q.len() > 0 ==> q.push(m)[0] == q[0] && q.push(m).drop_first() == q.drop_first().push(m),
{
    if q.len() == 0 {
        assert(q.push(m).drop_first() =~= q);
    } else {
        assert(q.push(m).drop_first() =~= q.drop_first().push(m));
    }
}

/// A consistent region never holds more than `Q_CAPACITY` messages in either
/// queue.
pub proof fn lemma_queues_bounded(shm: SharedMemory)
    requires
        shm.wf(),
    ensures
        shm.requests().len() <= Q_CAPACITY,
        shm.responses().len() <= Q_CAPACITY,
{
}

} // verus!

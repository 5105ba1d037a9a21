//! Trusted view of the `ringbuffer` crate's `AllocRingBuffer`, the
//! fixed-capacity FIFO store behind the 60-slot sample window.

use vstd::prelude::*;
use crate::bitrep::Bit;

verus! {

/// The ring buffer type of the `ringbuffer` crate, opaque to the
/// verifier; its contents and capacity are named below.
#[verifier::external_type_specification]
#[verifier::external_body]
#[verifier::reject_recursive_types(T)]
pub struct ExAllocRingBuffer<T>(ringbuffer::AllocRingBuffer<T>);

/// The bits a ring buffer holds, oldest first.
pub uninterp spec fn ring_contents(rb: ringbuffer::AllocRingBuffer<Bit>) -> Seq<Bit>;

/// The fixed capacity the ring buffer was created with.
pub uninterp spec fn ring_capacity(rb: ringbuffer::AllocRingBuffer<Bit>) -> nat;

/// Relies on `ringbuffer::AllocRingBuffer::new`: an empty buffer of the
/// given capacity; it panics on capacity zero, which the precondition
/// rules out.
#[verifier::external_body]
pub(crate) fn ring_new(cap: usize) -> (r: ringbuffer::AllocRingBuffer<Bit>)
    requires
        cap >= 1,
    ensures
        ring_contents(r) == Seq::<Bit>::empty(),
        ring_capacity(r) == cap as nat,
{
    ringbuffer::AllocRingBuffer::new(cap)
}

/// Relies on `ringbuffer::RingBuffer::len`: the number of stored items.
#[verifier::external_body]
pub(crate) fn ring_len(rb: &ringbuffer::AllocRingBuffer<Bit>) -> (r: usize)
    ensures
        r as nat == ring_contents(*rb).len(),
{
    ringbuffer::RingBuffer::len(rb)
}

/// Relies on `ringbuffer::RingBuffer::is_full`: the length has reached
/// the capacity.
#[verifier::external_body]
pub(crate) fn ring_is_full(rb: &ringbuffer::AllocRingBuffer<Bit>) -> (r: bool)
    ensures
        r == (ring_contents(*rb).len() == ring_capacity(*rb)),
{
    ringbuffer::RingBuffer::is_full(rb)
}

/// Relies on `ringbuffer::RingBuffer::enqueue`: appends one item at the
/// newest end, first evicting the oldest item when the buffer is full.
#[verifier::external_body]
pub(crate) fn ring_enqueue(rb: &mut ringbuffer::AllocRingBuffer<Bit>, b: Bit)
    ensures
        ring_capacity(*final(rb)) == ring_capacity(*old(rb)),
        ring_contents(*final(rb)) == (if ring_contents(*old(rb)).len() < ring_capacity(*old(rb)) {
            ring_contents(*old(rb)).push(b)
        } else {
            ring_contents(*old(rb)).skip(1).push(b)
        }),
{
    let _ = ringbuffer::RingBuffer::enqueue(rb, b);
}

/// Relies on `ringbuffer::RingBuffer::to_vec`: copies the stored items
/// out in order, oldest first.
#[verifier::external_body]
pub(crate) fn ring_to_vec(rb: &ringbuffer::AllocRingBuffer<Bit>) -> (r: Vec<Bit>)
    ensures
        r@ == ring_contents(*rb),
{
    ringbuffer::RingBuffer::to_vec(rb)
}

/// Relies on `ringbuffer::RingBuffer::get`: the item `i` places after the
/// oldest one; within the length it is `Some`, and the indexing wraps
/// only at or beyond the length, which the precondition rules out.
#[verifier::external_body]
pub(crate) fn ring_get(rb: &ringbuffer::AllocRingBuffer<Bit>, i: usize) -> (r: Bit)
    requires
        (i as nat) < ring_contents(*rb).len(),
    ensures
        r == ring_contents(*rb)[i as int],
{
    *ringbuffer::RingBuffer::get(rb, i).expect("index within length")
}

} // verus!

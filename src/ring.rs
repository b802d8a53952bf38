//! The playback ring: a fixed-capacity single-producer/single-consumer queue
//! of samples between the mixing side and the audio device callback, built
//! on `ringbuf`. Pushing onto a full ring and popping from an empty one are
//! ordinary outcomes, not errors.
use vstd::prelude::*;

verus! {

/// The producer and the consumer half of one `ringbuf` ring, owned together.
#[verifier::external_body]
pub struct RingHalves {
    producer: ringbuf::Producer<i32>,
    consumer: ringbuf::Consumer<i32>,
}

/// The items queued in a ring, oldest first.
pub uninterp spec fn ring_items(r: RingHalves) -> Seq<i32>;

/// The number of items that a ring was made to hold.
pub uninterp spec fn ring_capacity(r: RingHalves) -> nat;

/// Relies on ringbuf::RingBuffer::new and RingBuffer::split: an empty ring
/// that holds `capacity` items (it allocates `capacity + 1` slots).
#[verifier::external_body]
fn new_ring(capacity: usize) -> (r: RingHalves)
    requires
        capacity < usize::MAX,
    ensures
        ring_items(r) == Seq::<i32>::empty(),
        ring_capacity(r) == capacity,
{
    let (producer, consumer) = ringbuf::RingBuffer::new(capacity).split();
    RingHalves { producer, consumer }
}

/// Relies on ringbuf::Producer::push: appends `x` unless the ring is full,
/// and hands `x` back when it is.
#[verifier::external_body]
fn ring_push(r: &mut RingHalves, x: i32) -> (res: Result<(), i32>)
    ensures
        ring_capacity(*final(r)) == ring_capacity(*old(r)),
        ring_items(*old(r)).len() < ring_capacity(*old(r)) ==> {
            &&& res is Ok
            &&& ring_items(*final(r)) == ring_items(*old(r)).push(x)
        },
        ring_items(*old(r)).len() >= ring_capacity(*old(r)) ==> {
            &&& res == Err::<(), i32>(x)
            &&& ring_items(*final(r)) == ring_items(*old(r))
        },
{
    r.producer.push(x)
}

/// Relies on ringbuf::Consumer::pop: removes and returns the oldest item,
/// or `None` when the ring is empty.
#[verifier::external_body]
fn ring_pop(r: &mut RingHalves) -> (res: Option<i32>)
    ensures
        ring_capacity(*final(r)) == ring_capacity(*old(r)),
        ring_items(*old(r)).len() == 0 ==> {
            &&& res is None
            &&& ring_items(*final(r)) == ring_items(*old(r))
        },
        ring_items(*old(r)).len() > 0 ==> {
            &&& res == Some(ring_items(*old(r))[0])
            &&& ring_items(*final(r)) == ring_items(*old(r)).drop_first()
        },
{
    r.consumer.pop()
}

/// Relies on ringbuf::Consumer::len: the number of queued items (exact when
/// no other thread uses the ring).
#[verifier::external_body]
fn ring_len(r: &RingHalves) -> (n: usize)
    ensures
        n == ring_items(*r).len(),
{
    r.consumer.len()
}

/// Whether a ring holding `items` out of `cap` accepts one more.
pub open spec fn accepts(items: Seq<i32>, cap: nat) -> bool {
    items.len() < cap
}

/// The items after pushing `x` onto a ring holding `items` out of `cap`.
pub open spec fn after_push(items: Seq<i32>, cap: nat, x: i32) -> Seq<i32> {
    if accepts(items, cap) {
        items.push(x)
    } else {
        items
    }
}

/// The items after pushing each of `xs` in turn.
pub open spec fn after_pushes(items: Seq<i32>, cap: nat, xs: Seq<i32>) -> Seq<i32>
    decreases xs.len(),
{
    if xs.len() == 0 {
        items
    } else {
        after_push(after_pushes(items, cap, xs.drop_last()), cap, xs.last())
    }
}

/// The items after one pop.
pub open spec fn after_pop(items: Seq<i32>) -> Seq<i32> {
    if items.len() == 0 {
        items
    } else {
        items.drop_first()
    }
}

/// Pushing `capacity` samples `xs` onto an empty ring fills it with exactly
/// those samples, oldest first; one more push of `y` is then rejected and
/// leaves the ring as it was; a pop then yields the first sample pushed, and
/// a following push of `y` is accepted and appends it.
pub proof fn lemma_fill_pop_push(cap: nat, xs: Seq<i32>, y: i32)
    requires
        xs.len() == cap,
        cap > 0,
    ensures
        after_pushes(Seq::empty(), cap, xs) == xs,
        !accepts(xs, cap),
        after_push(xs, cap, y) == xs,
        xs.len() > 0 && after_pop(xs) == xs.drop_first(),
        accepts(after_pop(xs), cap),
        after_push(after_pop(xs), cap, y) == xs.drop_first().push(y),
{
    lemma_pushes_below_capacity(cap, xs);
}

proof fn lemma_pushes_below_capacity(cap: nat, xs: Seq<i32>)
    requires
        xs.len() <= cap,
    ensures
        after_pushes(Seq::empty(), cap, xs) == xs,
    decreases xs.len(),
{
    if xs.len() > 0 {
        lemma_pushes_below_capacity(cap, xs.drop_last());
        assert(xs.drop_last().push(xs.last()) =~= xs);
    }
}

/// A playback ring of PCM samples.
pub struct PlaybackRing {
    ring: RingHalves,
    capacity: usize,
}

impl PlaybackRing {
    /// The queued samples, oldest first.
    pub closed spec fn items(&self) -> Seq<i32> {
        ring_items(self.ring)
    }

    /// The number of samples the ring holds when full.
    pub closed spec fn cap(&self) -> nat {
        self.capacity as nat
    }

    pub closed spec fn wf(&self) -> bool {
        &&& ring_capacity(self.ring) == self.capacity
        &&& ring_items(self.ring).len() <= self.capacity
        &&& self.capacity < usize::MAX
    }

    /// A well-formed ring never holds more than its capacity.
    pub proof fn lemma_bounded(&self)
        requires
            self.wf(),
        ensures
            self.items().len() <= self.cap(),
            self.cap() < usize::MAX,
    {
    }

    /// An empty ring that holds `capacity` samples.
    pub fn new(capacity: usize) -> (r: Self)
        requires
            capacity < usize::MAX,
        ensures
            r.wf(),
            r.items() == Seq::<i32>::empty(),
            r.cap() == capacity,
    {
        PlaybackRing { ring: new_ring(capacity), capacity }
    }

    pub fn capacity(&self) -> (r: usize)
        ensures
            r == self.cap(),
    {
        self.capacity
    }

    pub fn len(&self) -> (r: usize)
        ensures
            r == self.items().len(),
    {
        ring_len(&self.ring)
    }

    pub fn is_empty(&self) -> (r: bool)
        ensures
            r == (self.items().len() == 0),
    {
        ring_len(&self.ring) == 0
    }

    pub fn is_full(&self) -> (r: bool)
        requires
            self.wf(),
        ensures
            r == (self.items().len() == self.cap()),
    {
        ring_len(&self.ring) == self.capacity
    }

    /// Appends `sample` unless the ring is full; a full ring hands it back.
    pub fn push(&mut self, sample: i32) -> (r: Result<(), i32>)
        requires
            old(self).wf(),
        ensures
            final(self).wf(),
            final(self).cap() == old(self).cap(),
            final(self).items() == after_push(old(self).items(), old(self).cap(), sample),
            accepts(old(self).items(), old(self).cap()) ==> r is Ok,
            !accepts(old(self).items(), old(self).cap()) ==> r == Err::<(), i32>(sample),
    {
        ring_push(&mut self.ring, sample)
    }

    /// Removes and returns the oldest sample, or `None` when the ring is empty.
    pub fn pop(&mut self) -> (r: Option<i32>)
        requires
            old(self).wf(),
        ensures
            final(self).wf(),
            final(self).cap() == old(self).cap(),
            final(self).items() == after_pop(old(self).items()),
            old(self).items().len() == 0 ==> r is None,
            old(self).items().len() > 0 ==> r == Some(old(self).items()[0]),
    {
        ring_pop(&mut self.ring)
    }

    /// Removes and returns the oldest sample, or silence (zero) when the ring
    /// is empty.
    pub fn pop_or_silence(&mut self) -> (r: i32)
        requires
            old(self).wf(),
        ensures
            final(self).wf(),
            final(self).cap() == old(self).cap(),
            final(self).items() == after_pop(old(self).items()),
            old(self).items().len() == 0 ==> r == 0,
            old(self).items().len() > 0 ==> r == old(self).items()[0],
    {
        match self.pop() {
            Some(s) => s,
            None => 0,
        }
    }

    /// Pushes `source[start..]` in order until the ring is full or the source
    /// is exhausted; returns how many samples were pushed.
    pub fn fill_from(&mut self, source: &[i32], start: usize) -> (n: usize)
        requires
            old(self).wf(),
            start <= source@.len(),
        ensures
            final(self).wf(),
            final(self).cap() == old(self).cap(),
            n == vstd::math::min(old(self).cap() - old(self).items().len(), source@.len() - start),
            final(self).items() == old(self).items() + source@.subrange(start as int, start + n),
    {
        let ghost before = self.items();
        let mut i: usize = start;
        while i < source.len() && !self.is_full()
            invariant
                self.wf(),
                self.cap() == old(self).cap(),
                before == old(self).items(),
                start <= i <= source@.len(),
                self.items() == before + source@.subrange(start as int, i as int),
            decreases source@.len() - i,
        {
            let _ = self.push(source[i]);
            proof {
                assert(source@.subrange(start as int, i + 1) =~= source@.subrange(start as int, i as int).push(source@[i as int]));
            }
            i += 1;
        }
        i - start
    }

    /// Fills a device buffer of interleaved frames of `channels` channels:
    /// the first channel of each frame takes the next queued sample, or
    /// silence when the ring has run dry; every other channel is silent.
    pub fn fill_output(&mut self, out: &mut Vec<i32>, channels: usize)
        requires
            old(self).wf(),
            channels > 0,
        ensures
            final(self).wf(),
            final(self).cap() == old(self).cap(),
            final(out)@.len() == old(out)@.len(),
            final(self).items() == old(self).items().skip(
                vstd::math::min(old(self).items().len() as int, frames_started(old(out)@.len(), channels as nat) as int),
            ),
            forall|i: int| 0 <= i < old(out)@.len() ==> #[trigger] final(out)@[i] == output_sample(old(self).items(), channels as nat, i),
    {
        let ghost before = self.items();
        proof {
            vstd::arithmetic::div_mod::lemma_fundamental_div_mod_converse(channels - 1, channels as int, 0, channels - 1);
            assert(before.skip(0) =~= before);
        }
        let len = out.len();
        let mut i: usize = 0;
        while i < len
            invariant
                self.wf(),
                self.cap() == old(self).cap(),
                before == old(self).items(),
                channels > 0,
                len == out@.len(),
                len == old(out)@.len(),
                i <= len,
                self.items() == before.skip(vstd::math::min(before.len() as int, frames_started(i as nat, channels as nat) as int)),
                forall|k: int| 0 <= k < i ==> #[trigger] out@[k] == output_sample(before, channels as nat, k),
            decreases len - i,
        {
            let ghost f = frames_started(i as nat, channels as nat);
            proof {
                lemma_frames_started_step(i as nat, channels as nat);
            }
            if i % channels == 0 {
                let s = self.pop_or_silence();
                out.set(i, s);
                proof {
                    if f < before.len() {
                        assert(before.skip(f as int).drop_first() =~= before.skip(f + 1int));
                    }
                }
            } else {
                out.set(i, 0);
            }
            i += 1;
        }
    }
}

/// The number of frames that have begun among the first `len` values of an
/// interleaved buffer of `channels` channels.
pub open spec fn frames_started(len: nat, channels: nat) -> nat {
    ((len + channels - 1) / (channels as int)) as nat
}

/// What `fill_output` writes at position `i` from queued `items`.
pub open spec fn output_sample(items: Seq<i32>, channels: nat, i: int) -> i32 {
    if i % (channels as int) == 0 && i / (channels as int) < items.len() {
        items[i / (channels as int)]
    } else {
        0
    }
}

proof fn lemma_frames_started_step(i: nat, channels: nat)
    requires
        channels > 0,
    ensures
        (i as int) % (channels as int) == 0 ==> {
            &&& frames_started(i, channels) == (i as int) / (channels as int)
            &&& frames_started(i + 1, channels) == frames_started(i, channels) + 1
        },
        (i as int) % (channels as int) != 0 ==> frames_started(i + 1, channels) == frames_started(i, channels),
{
    let c = channels as int;
    let q = (i as int) / c;
    let r = (i as int) % c;
    vstd::arithmetic::div_mod::lemma_fundamental_div_mod(i as int, c);
    assert((q + 1) * c == q * c + c && c * q == q * c) by (nonlinear_arith);
    if r == 0 {
        vstd::arithmetic::div_mod::lemma_fundamental_div_mod_converse(i + c - 1, c, q, c - 1);
        vstd::arithmetic::div_mod::lemma_fundamental_div_mod_converse(i + c, c, q + 1, 0);
    } else {
        vstd::arithmetic::div_mod::lemma_fundamental_div_mod_converse(i + c - 1, c, q + 1, r - 1);
        vstd::arithmetic::div_mod::lemma_fundamental_div_mod_converse(i + c, c, q + 1, r);
    }
}

/// How long, in microseconds, the mixing side pauses once the ring is full:
/// half the time the device takes to play `buffer_size` samples at
/// `sample_rate` samples per second.
pub fn refill_pause_micros(buffer_size: usize, sample_rate: u32) -> (r: u128)
    requires
        sample_rate > 0,
    ensures
        r == (buffer_size as int) * 500_000 / (sample_rate as int),
{
    proof {
        assert((buffer_size as int) * 500_000 < 0x1_0000_0000_0000_0000_0000_0000_0000_0000) by (nonlinear_arith)
            requires buffer_size < 0x1_0000_0000_0000_0000;
    }
    (buffer_size as u128) * 500_000 / (sample_rate as u128)
}

} // verus!

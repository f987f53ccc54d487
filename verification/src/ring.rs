use vstd::prelude::*;

verus! {

/// Bounded FIFO of raw sample words with drop-on-full semantics: the queue
/// that carries samples from the capture callback to the analysis loop.
///
/// `push` never blocks: on a full buffer the incoming sample is dropped and
/// the buffered (older) samples are preserved.  `pull` never blocks: it
/// returns at most the samples currently available.  The capacity is fixed
/// at creation; the storage is allocated once and reused.
pub struct RingBuffer {
    buf: Vec<u32>,
    head: usize,
    len: usize,
}

impl View for RingBuffer {
    type V = Seq<u32>;

    /// The samples currently buffered, oldest first.
    closed spec fn view(&self) -> Seq<u32> {
        Seq::new(self.len as nat, |i: int| self.buf@[self.slot(i)])
    }
}

impl RingBuffer {
    /// Physical index of the `i`-th buffered sample, counting from the oldest.
    closed spec fn slot(&self, i: int) -> int {
        if self.head + i < self.buf@.len() {
            self.head + i
        } else {
            self.head + i - self.buf@.len()
        }
    }

    pub closed spec fn wf(&self) -> bool {
        &&& self.buf@.len() >= 1
        &&& self.head < self.buf@.len()
        &&& self.len <= self.buf@.len()
    }

    pub closed spec fn cap(&self) -> nat {
        self.buf@.len()
    }

    /// A well-formed buffer never holds more than its capacity.
    pub proof fn lemma_wf_bounds(&self)
        requires
            self.wf(),
        ensures
            self@.len() <= self.cap(),
            self.cap() >= 1,
    {
    }

    pub fn new(capacity: usize) -> (rb: RingBuffer)
        requires
            capacity >= 1,
        ensures
            rb.wf(),
            rb.cap() == capacity,
            rb@ =~= Seq::<u32>::empty(),
    {
        let mut buf: Vec<u32> = Vec::new();
        let mut i: usize = 0;
        while i < capacity
            invariant
                i <= capacity,
                buf@.len() == i,
            decreases capacity - i,
        {
            buf.push(0);
            i = i + 1;
        }
        RingBuffer { buf, head: 0, len: 0 }
    }

    /// Number of samples currently available to `pull`.
    pub fn available(&self) -> (n: usize)
        requires
            self.wf(),
        ensures
            n == self@.len(),
    {
        self.len
    }

    pub fn capacity(&self) -> (c: usize)
        requires
            self.wf(),
        ensures
            c == self.cap(),
    {
        self.buf.len()
    }

    /// Appends one sample, unless the buffer is full; a sample offered to a
    /// full buffer is dropped and `false` is returned.
    pub fn push(&mut self, sample: u32) -> (ok: bool)
        requires
            old(self).wf(),
        ensures
            final(self).wf(),
            final(self).cap() == old(self).cap(),
            old(self)@.len() == old(self).cap() ==> !ok && final(self)@ == old(self)@,
            old(self)@.len() < old(self).cap() ==> ok && final(self)@ == old(self)@.push(sample),
    {
        if self.len == self.buf.len() {
            return false;
        }
        let room = self.buf.len() - self.head;
        let idx = if self.len < room {
            self.head + self.len
        } else {
            self.len - room
        };
        self.buf.set(idx, sample);
        self.len = self.len + 1;
        proof {
            assert(self@ =~= old(self)@.push(sample));
        }
        true
    }

    /// Removes and returns the oldest `min(max_count, available)` samples,
    /// in the order they were pushed.
    pub fn pull(&mut self, max_count: usize) -> (out: Vec<u32>)
        requires
            old(self).wf(),
        ensures
            final(self).wf(),
            final(self).cap() == old(self).cap(),
            out@.len() == if max_count <= old(self)@.len() {
                max_count as int
            } else {
                old(self)@.len() as int
            },
            out@ == old(self)@.take(out@.len() as int),
            final(self)@ == old(self)@.skip(out@.len() as int),
    {
        let k = if max_count <= self.len {
            max_count
        } else {
            self.len
        };
        let mut out: Vec<u32> = Vec::new();
        let mut i: usize = 0;
        while i < k
            invariant
                i <= k,
                k <= self.len,
                self.wf(),
                *self == *old(self),
                out@.len() == i,
                forall|j: int| 0 <= j < i ==> out@[j] == self@[j],
            decreases k - i,
        {
            let room = self.buf.len() - self.head;
            let idx = if i < room {
                self.head + i
            } else {
                i - room
            };
            out.push(self.buf[idx]);
            i = i + 1;
        }
        let room = self.buf.len() - self.head;
        self.head = if k < room {
            self.head + k
        } else {
            k - room
        };
        self.len = self.len - k;
        proof {
            assert(out@ =~= old(self)@.take(k as int));
            assert(self@ =~= old(self)@.skip(k as int));
        }
        out
    }

    /// Assembles one whole analysis frame, or nothing: when fewer than
    /// `frame_len` samples are buffered the cycle is skipped and the
    /// buffer is left untouched — no partial-frame analysis.
    pub fn pull_frame(&mut self, frame_len: usize) -> (out: Option<Vec<u32>>)
        requires
            old(self).wf(),
        ensures
            final(self).wf(),
            final(self).cap() == old(self).cap(),
            old(self)@.len() < frame_len ==> out is None && final(self)@ == old(self)@,
            old(self)@.len() >= frame_len ==> out is Some && out->Some_0@ == old(self)@.take(
                frame_len as int,
            ) && final(self)@ == old(self)@.skip(frame_len as int),
    {
        if self.available() < frame_len {
            None
        } else {
            Some(self.pull(frame_len))
        }
    }
}

} // verus!

use vstd::prelude::*;

verus! {

/// An I/O port number. Reading and writing the port is done by the caller
/// that owns the hardware; the library only carries the number.
#[derive(Debug, Clone, Copy, PartialEq, Eq, Structural)]
pub struct Port {
    pub port: u16,
}

impl Port {
    pub fn new(port: u16) -> (p: Self)
        ensures
            p.port == port,
    {
        Port { port }
    }
}

/// Number of slots in the ring; one slot stays unused, so at most
/// `RING_CAPACITY` bytes are held.
pub const BUFFER_SIZE: usize = 256;
/// The largest number of bytes the ring holds at once.
pub const RING_CAPACITY: usize = 255;

/// A bounded FIFO of bytes. When full, a push drops the oldest byte.
pub struct RingBuffer {
    buffer: [u8; 256],
    head: usize,
    tail: usize,
}

/// The contents after pushing `d` onto contents `s`: appended, and the
/// oldest byte dropped when the ring was already full.
pub open spec fn pushed(s: Seq<u8>, d: u8) -> Seq<u8> {
    if s.len() < RING_CAPACITY {
        s.push(d)
    } else {
        s.skip(1).push(d)
    }
}

impl RingBuffer {
    /// Indices stay inside the slot array.
    pub closed spec fn wf(&self) -> bool {
        self.head < BUFFER_SIZE && self.tail < BUFFER_SIZE
    }

    pub closed spec fn len_spec(&self) -> nat {
        ((self.head + BUFFER_SIZE - self.tail) % (BUFFER_SIZE as int)) as nat
    }

    /// The bytes held, oldest first.
    pub closed spec fn view(&self) -> Seq<u8> {
        Seq::new(self.len_spec(), |k: int| self.buffer[((self.tail + k) % (BUFFER_SIZE as int))])
    }

    proof fn lemma_len_bound(&self)
        requires
            self.wf(),
        ensures
            self@.len() <= RING_CAPACITY,
            self@.len() == 0 <==> self.head == self.tail,
            (self.tail + self@.len()) % (BUFFER_SIZE as int) == self.head,
    {
    }

    /// An empty ring.
    pub fn new() -> (r: Self)
        ensures
            r.wf(),
            r@ == Seq::<u8>::empty(),
    {
        let r = RingBuffer { buffer: [0u8; 256], head: 0, tail: 0 };
        assert(r@ =~= Seq::<u8>::empty());
        r
    }

    /// Appends `data`; when the ring already holds `RING_CAPACITY` bytes the
    /// oldest one is dropped.
    pub fn push(&mut self, data: u8)
        requires
            old(self).wf(),
        ensures
            final(self).wf(),
            final(self)@ == pushed(old(self)@, data),
    {
        proof {
            self.lemma_len_bound();
        }
        let ghost old_view = self@;
        let ghost old_len = self@.len();
        let h = self.head;
        self.buffer[h] = data;
        self.head = (self.head + 1) % BUFFER_SIZE;
        if self.head == self.tail {
            self.tail = (self.tail + 1) % BUFFER_SIZE;
        }
        proof {
            let new_view = self@;
            let expect = pushed(old_view, data);
            if old_len < RING_CAPACITY {
                assert(new_view.len() == old_len + 1);
                assert forall|k: int| 0 <= k < new_view.len() implies new_view[k] == expect[k] by {
                    if k < old_len {
                        assert((self.tail + k) % 256 != h as int);
                    } else {
                        assert((self.tail + k) % 256 == h as int);
                    }
                }
                assert(new_view =~= expect);
            } else {
                assert(new_view.len() == old_len);
                assert forall|k: int| 0 <= k < new_view.len() implies new_view[k] == expect[k] by {
                    if k < old_len - 1 {
                        assert((self.tail + k) % 256 != h as int);
                        assert((self.tail + k) % 256 == (old(self).tail + k + 1) % 256);
                    } else {
                        assert((self.tail + k) % 256 == h as int);
                    }
                }
                assert(new_view =~= expect);
            }
        }
    }

    /// Removes and returns the oldest byte, or `None` when empty.
    pub fn pop(&mut self) -> (r: Option<u8>)
        requires
            old(self).wf(),
        ensures
            final(self).wf(),
            old(self)@.len() == 0 ==> r is None && final(self)@ == old(self)@,
            old(self)@.len() > 0 ==> r == Some(old(self)@[0]) && final(self)@ == old(self)@.skip(1),
    {
        proof {
            self.lemma_len_bound();
        }
        if self.head == self.tail {
            None
        } else {
            let data = self.buffer[self.tail];
            self.tail = (self.tail + 1) % BUFFER_SIZE;
            proof {
                let expect = old(self)@.skip(1);
                assert forall|k: int| 0 <= k < self@.len() implies self@[k] == expect[k] by {
                    assert((self.tail + k) % 256 == (old(self).tail + k + 1) % 256);
                }
                assert(self@ =~= expect);
            }
            Some(data)
        }
    }

    /// Number of bytes held.
    pub fn len(&self) -> (n: usize)
        requires
            self.wf(),
        ensures
            n == self@.len(),
    {
        (self.head + BUFFER_SIZE - self.tail) % BUFFER_SIZE
    }
}

/// The ring never holds more than `RING_CAPACITY` bytes, and a push always
/// keeps the byte just pushed as the newest one.
pub proof fn law_push_bounded_and_newest(s: Seq<u8>, d: u8)
    requires
        s.len() <= RING_CAPACITY,
    ensures
        pushed(s, d).len() <= RING_CAPACITY,
        pushed(s, d).last() == d,
        s.len() < RING_CAPACITY ==> pushed(s, d).len() == s.len() + 1,
        s.len() == RING_CAPACITY ==> pushed(s, d).len() == RING_CAPACITY,
{
}

/// First in, first out: on a ring that is not full, popping after a push
/// yields the oldest byte held before, or the pushed byte on an empty ring,
/// and the remaining contents are the old ones after the first, followed by
/// the pushed byte.
pub proof fn law_fifo(s: Seq<u8>, d: u8)
    requires
        s.len() < RING_CAPACITY,
    ensures
        pushed(s, d)[0] == (if s.len() == 0 { d } else { s[0] }),
        pushed(s, d).skip(1) == (if s.len() == 0 { Seq::<u8>::empty() } else { pushed(s.skip(1), d) }),
{
    if s.len() == 0 {
        assert(pushed(s, d).skip(1) =~= Seq::<u8>::empty());
    } else {
        assert(pushed(s, d).skip(1) =~= pushed(s.skip(1), d));
    }
}

} // verus!

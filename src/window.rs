use vstd::prelude::*;

use crate::pattern::ends_at;

verus! {

/// Slot of a ring of capacity `cap` that lies `k` places after `head`.
pub open spec fn ring_index(head: int, k: int, cap: int) -> int {
    if head + k < cap {
        head + k
    } else {
        head + k - cap
    }
}

/// A fixed-size window over the most recent bytes of a stream, compared
/// against a pattern of the same size each time a byte comes in.
///
/// The window is a ring: while it fills, bytes are appended; once full, the
/// oldest byte is overwritten in place and `head` moves on by one.
pub struct Matcher {
    pattern: Vec<u8>,
    ring: Vec<u8>,
    head: usize,
    seen: Ghost<Seq<u8>>,
}

impl Matcher {
    /// The pattern searched for.
    pub closed spec fn pattern(&self) -> Seq<u8> {
        self.pattern@
    }

    /// Every byte pushed so far, oldest first.
    pub closed spec fn seen(&self) -> Seq<u8> {
        self.seen@
    }

    pub closed spec fn wf(&self) -> bool {
        let cap = self.pattern@.len() as int;
        let n = self.seen@.len() as int;
        let m = self.ring@.len() as int;
        &&& cap >= 1
        &&& m <= cap
        &&& self.head < cap
        &&& m < cap ==> self.head == 0 && m == n
        &&& m == cap ==> n >= cap
        &&& forall|k: int|
            0 <= k < m ==> #[trigger] self.ring@[ring_index(self.head as int, k, m)] == self.seen@[n
                - m + k]
    }

    /// A matcher for `pattern` that has seen no byte yet.
    pub fn new(pattern: Vec<u8>) -> (r: Matcher)
        requires
            pattern@.len() >= 1,
        ensures
            r.wf(),
            r.pattern() == pattern@,
            r.seen() == Seq::<u8>::empty(),
    {
        let cap = pattern.len();
        Matcher { pattern, ring: Vec::with_capacity(cap), head: 0, seen: Ghost(Seq::empty()) }
    }

    /// The length of the pattern.
    pub fn pattern_len(&self) -> (r: usize)
        ensures
            r == self.pattern().len(),
    {
        self.pattern.len()
    }

    /// Admits one byte; the result says whether the pattern now fills the
    /// window, that is whether it ends exactly at this byte.
    pub fn push(&mut self, b: u8) -> (r: bool)
        requires
            old(self).wf(),
        ensures
            final(self).wf(),
            final(self).pattern() == old(self).pattern(),
            final(self).seen() == old(self).seen().push(b),
            r == ends_at(final(self).pattern(), final(self).seen(), final(self).seen().len() as int),
    {
        let cap = self.pattern.len();
        let ghost old_ring = self.ring@;
        let ghost old_seen = self.seen@;
        let ghost old_head = self.head as int;
        if self.ring.len() < cap {
            self.ring.push(b);
            self.seen = Ghost(self.seen@.push(b));
            proof {
                let m = self.ring@.len() as int;
                let n = self.seen@.len() as int;
                assert forall|k: int| 0 <= k < m implies #[trigger] self.ring@[ring_index(
                    self.head as int,
                    k,
                    m,
                )] == self.seen@[n - m + k] by {
                    assert(ring_index(0, k, m) == k);
                    if k < m - 1 {
                        assert(old_ring[ring_index(0, k, m - 1)] == old_seen[k]);
                    }
                }
            }
        } else {
            self.ring.set(self.head, b);
            self.head = if self.head < cap - 1 {
                self.head + 1
            } else {
                0
            };
            self.seen = Ghost(self.seen@.push(b));
            proof {
                let m = cap as int;
                let n = self.seen@.len() as int;
                assert forall|k: int| 0 <= k < m implies #[trigger] self.ring@[ring_index(
                    self.head as int,
                    k,
                    m,
                )] == self.seen@[n - m + k] by {
                    if k < m - 1 {
                        assert(ring_index(self.head as int, k, m) == ring_index(old_head, k + 1, m));
                        assert(old_ring[ring_index(old_head, k + 1, m)] == old_seen[n - 1 - m + k
                            + 1]);
                    } else {
                        assert(ring_index(self.head as int, k, m) == old_head);
                    }
                }
            }
        }
        if self.ring.len() < cap {
            return false;
        }
        self.window_is_pattern()
    }

    /// Compares the full window with the pattern, oldest byte first.
    fn window_is_pattern(&self) -> (r: bool)
        requires
            self.wf(),
            self.ring@.len() == self.pattern@.len(),
        ensures
            r == ends_at(self.pattern(), self.seen(), self.seen().len() as int),
    {
        let cap = self.pattern.len();
        let ghost s = self.seen@;
        let ghost n = s.len();
        let mut k: usize = 0;
        while k < cap
            invariant
                self.wf(),
                cap == self.pattern@.len(),
                self.ring@.len() == cap,
                n == self.seen@.len(),
                s == self.seen@,
                n >= cap,
                0 <= k <= cap,
                forall|j: int| 0 <= j < k ==> s[n - cap + j] == self.pattern@[j],
            decreases cap - k,
        {
            let idx: usize = if k < cap - self.head {
                self.head + k
            } else {
                k - (cap - self.head)
            };
            assert(idx as int == ring_index(self.head as int, k as int, cap as int));
            if self.ring[idx] != self.pattern[k] {
                assert(s.subrange(n - cap, n as int)[k as int] != self.pattern@[k as int]);
                return false;
            }
            k = k + 1;
        }
        assert(s.subrange(n - cap, n as int) =~= self.pattern@);
        true
    }
}

} // verus!

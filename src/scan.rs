use vstd::prelude::*;
use vstd::slice::slice_to_vec;

use crate::pattern::{captured, ends_at, extracted, is_first_end, lemma_scan_end_is_first, occurs, scan_end};
use crate::stream::ByteStream;
use crate::window::Matcher;

verus! {

/// The byte content of an optional buffer.
pub open spec fn bytes_of(r: Option<Vec<u8>>) -> Option<Seq<u8>> {
    match r {
        Some(v) => Some(v@),
        None => None,
    }
}

/// Up to index `c`, a prefix of `s` holds the same runs of `p` as `s` does.
pub proof fn lemma_prefix_ends(p: Seq<u8>, s: Seq<u8>, c: int)
    requires
        0 <= c <= s.len(),
    ensures
        forall|j: int| j <= c ==> (ends_at(p, s.subrange(0, c), j) <==> ends_at(p, s, j)),
{
    assert forall|j: int| j <= c implies (ends_at(p, s.subrange(0, c), j) <==> ends_at(p, s, j)) by {
        if p.len() <= j {
            assert(s.subrange(0, c).subrange(j - p.len(), j) =~= s.subrange(j - p.len(), j));
        }
    }
}

/// Removes the last `n` elements of `v`, or all of them when it holds fewer.
pub fn rem_n_from_end<T>(v: &mut Vec<T>, n: usize)
    ensures
        final(v)@ == old(v)@.subrange(
            0,
            if n <= old(v)@.len() {
                old(v)@.len() - n
            } else {
                0
            },
        ),
{
    let mut i: usize = 0;
    while i < n
        invariant
            0 <= i <= n,
            v@ == old(v)@.subrange(
                0,
                if i <= old(v)@.len() {
                    old(v)@.len() - i
                } else {
                    0
                },
            ),
        decreases n - i,
    {
        v.pop();
        i = i + 1;
    }
}

/// What the collection of bytes up to an end pattern has come to.
pub enum CaptureStep {
    /// The end pattern has not come yet.
    Pending,
    /// The end pattern came first, with nothing before it.
    Absent,
    /// The end pattern came; these are the bytes before it.
    Found(Vec<u8>),
}

/// Collects the bytes of a stream until a given end pattern comes.
pub struct Capture {
    matcher: Matcher,
    bytes: Vec<u8>,
    finished: bool,
}

impl Capture {
    /// The end pattern.
    pub closed spec fn end(&self) -> Seq<u8> {
        self.matcher.pattern()
    }

    /// Every byte pushed so far.
    pub closed spec fn seen(&self) -> Seq<u8> {
        self.matcher.seen()
    }

    /// Whether the end pattern has come.
    pub closed spec fn finished(&self) -> bool {
        self.finished
    }

    pub closed spec fn wf(&self) -> bool {
        &&& self.matcher.wf()
        &&& self.matcher.pattern().len() >= 1
        &&& !self.finished ==> {
            &&& self.bytes@ == self.matcher.seen()
            &&& forall|j: int|
                0 <= j <= self.matcher.seen().len() ==> !ends_at(
                    self.matcher.pattern(),
                    self.matcher.seen(),
                    j,
                )
        }
    }

    /// A capture closed by `end` that has seen no byte yet.
    pub fn new(end: Vec<u8>) -> (r: Capture)
        requires
            end@.len() >= 1,
        ensures
            r.wf(),
            !r.finished(),
            r.end() == end@,
            r.seen() == Seq::<u8>::empty(),
    {
        Capture { matcher: Matcher::new(end), bytes: Vec::new(), finished: false }
    }

    /// Admits one byte. Once the end pattern has come the capture is over,
    /// and the result gives what it yields.
    pub fn push(&mut self, b: u8) -> (r: CaptureStep)
        requires
            old(self).wf(),
            !old(self).finished(),
        ensures
            final(self).wf(),
            final(self).end() == old(self).end(),
            final(self).seen() == old(self).seen().push(b),
            final(self).finished() == !(r is Pending),
            r is Pending ==> !occurs(final(self).end(), final(self).seen()),
            !(r is Pending) ==> is_first_end(
                final(self).end(),
                final(self).seen(),
                final(self).seen().len() as int,
            ),
            r is Absent ==> occurs(final(self).end(), final(self).seen()) && captured(
                final(self).end(),
                final(self).seen(),
            ) is None,
            r matches CaptureStep::Found(v) ==> captured(final(self).end(), final(self).seen())
                == Some(v@),
    {
        let ghost p = self.matcher.pattern();
        let ghost s0 = self.matcher.seen();
        let hit = self.matcher.push(b);
        let ghost s = self.matcher.seen();
        proof {
            assert(s0 =~= s.subrange(0, s0.len() as int));
            lemma_prefix_ends(p, s, s0.len() as int);
        }
        if !hit {
            self.bytes.push(b);
            proof {
                assert forall|e: int| !ends_at(p, s, e) by {
                    if e < s.len() {
                        assert(!ends_at(p, s0, e));
                    }
                }
            }
            return CaptureStep::Pending;
        }
        self.finished = true;
        proof {
            assert(is_first_end(p, s, s.len() as int));
            lemma_scan_end_is_first(p, s, s.len() as int);
        }
        let l = self.matcher.pattern_len();
        if self.bytes.len() == l - 1 {
            return CaptureStep::Absent;
        }
        rem_n_from_end(&mut self.bytes, l - 1);
        let out = self.bytes.split_off(0);
        proof {
            assert(out@ =~= s.subrange(0, s.len() - p.len()));
        }
        CaptureStep::Found(out)
    }
}

/// Scans `reader` for `exp`, consuming bytes up to and including its
/// earliest occurrence, or the whole stream when it never occurs.
pub fn reader_match_exp(exp: &[u8], reader: &mut ByteStream) -> (r: bool)
    requires
        exp@.len() >= 1,
    ensures
        r == occurs(exp@, old(reader)@),
        final(reader)@ == old(reader)@.subrange(scan_end(exp@, old(reader)@), old(reader)@.len() as int),
{
    let ghost s = old(reader)@;
    let mut m = Matcher::new(slice_to_vec(exp));
    let ghost mut c: int = 0;
    assert(reader@ =~= s.subrange(0, s.len() as int));
    loop
        invariant
            m.wf(),
            m.pattern() == exp@,
            s == old(reader)@,
            0 <= c <= s.len(),
            m.seen() == s.subrange(0, c),
            reader@ == s.subrange(c, s.len() as int),
            forall|j: int| 0 <= j <= c ==> !ends_at(exp@, s, j),
        decreases reader@.len(),
    {
        match reader.next_byte() {
            None => {
                proof {
                    assert forall|e: int| !ends_at(exp@, s, e) by {
                        if 0 <= e <= c {
                        }
                    }
                    assert(!occurs(exp@, s));
                    assert(reader@ =~= s.subrange(s.len() as int, s.len() as int));
                }
                return false;
            },
            Some(b) => {
                let hit = m.push(b);
                proof {
                    assert(m.seen() =~= s.subrange(0, c + 1));
                    lemma_prefix_ends(exp@, s, c + 1);
                    c = c + 1;
                    assert(reader@ =~= s.subrange(c, s.len() as int));
                }
                if hit {
                    proof {
                        assert(ends_at(exp@, s, c));
                        assert(is_first_end(exp@, s, c));
                        lemma_scan_end_is_first(exp@, s, c);
                    }
                    return true;
                }
            },
        }
    }
}

/// Collects the bytes of `reader` that come before the earliest occurrence
/// of `exp`, consuming them and the occurrence. Nothing is found when `exp`
/// never occurs, and also when it occurs right at the start.
pub fn reader_read_and_store_until(exp: &[u8], reader: &mut ByteStream) -> (r: Option<Vec<u8>>)
    requires
        exp@.len() >= 1,
    ensures
        bytes_of(r) == captured(exp@, old(reader)@),
        final(reader)@ == old(reader)@.subrange(scan_end(exp@, old(reader)@), old(reader)@.len() as int),
{
    let ghost s = old(reader)@;
    let mut cap = Capture::new(slice_to_vec(exp));
    let ghost mut c: int = 0;
    assert(reader@ =~= s.subrange(0, s.len() as int));
    loop
        invariant
            cap.wf(),
            !cap.finished(),
            cap.end() == exp@,
            s == old(reader)@,
            0 <= c <= s.len(),
            cap.seen() == s.subrange(0, c),
            reader@ == s.subrange(c, s.len() as int),
            forall|j: int| 0 <= j <= c ==> !ends_at(exp@, s, j),
        decreases reader@.len(),
    {
        match reader.next_byte() {
            None => {
                proof {
                    assert forall|e: int| !ends_at(exp@, s, e) by {
                        if 0 <= e <= c {
                        }
                    }
                    assert(!occurs(exp@, s));
                    assert(reader@ =~= s.subrange(s.len() as int, s.len() as int));
                }
                return None;
            },
            Some(b) => {
                let step = cap.push(b);
                proof {
                    assert(cap.seen() =~= s.subrange(0, c + 1));
                    lemma_prefix_ends(exp@, s, c + 1);
                    c = c + 1;
                    assert(reader@ =~= s.subrange(c, s.len() as int));
                }
                match step {
                    CaptureStep::Pending => {},
                    CaptureStep::Absent => {
                        proof {
                            assert(is_first_end(exp@, s, c));
                            lemma_scan_end_is_first(exp@, s, c);
                            lemma_scan_end_is_first(exp@, cap.seen(), c);
                        }
                        return None;
                    },
                    CaptureStep::Found(v) => {
                        proof {
                            assert(is_first_end(exp@, s, c));
                            lemma_scan_end_is_first(exp@, s, c);
                            lemma_scan_end_is_first(exp@, cap.seen(), c);
                            assert(v@ =~= s.subrange(0, c - exp@.len()));
                        }
                        return Some(v);
                    },
                }
            },
        }
    }
}

/// Finds the earliest occurrence of `start` in `reader`, then collects the
/// bytes up to the earliest occurrence of `end` after it.
pub fn extract(start: &[u8], end: &[u8], reader: &mut ByteStream) -> (r: Option<Vec<u8>>)
    requires
        start@.len() >= 1,
        end@.len() >= 1,
    ensures
        bytes_of(r) == extracted(start@, end@, old(reader)@),
{
    if !reader_match_exp(start, reader) {
        return None;
    }
    reader_read_and_store_until(end, reader)
}

} // verus!

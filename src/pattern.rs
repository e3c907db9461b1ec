use vstd::prelude::*;

verus! {

/// `p` occupies the `p.len()` bytes of `s` that end just before index `e`.
pub open spec fn ends_at(p: Seq<u8>, s: Seq<u8>, e: int) -> bool {
    &&& p.len() <= e <= s.len()
    &&& s.subrange(e - p.len(), e) == p
}

/// `s` holds `p` as a run of consecutive bytes somewhere.
pub open spec fn occurs(p: Seq<u8>, s: Seq<u8>) -> bool {
    exists|e: int| ends_at(p, s, e)
}

/// `e` is the end of the earliest run of `p` in `s`.
pub open spec fn is_first_end(p: Seq<u8>, s: Seq<u8>, e: int) -> bool {
    &&& ends_at(p, s, e)
    &&& forall|j: int| 0 <= j < e ==> !ends_at(p, s, j)
}

/// Where a forward scan for `p` over `s` stops: just after the earliest run
/// of `p`, or at the end of `s` when `p` never occurs.
pub open spec fn scan_end(p: Seq<u8>, s: Seq<u8>) -> int {
    if occurs(p, s) {
        choose|e: int| is_first_end(p, s, e)
    } else {
        s.len() as int
    }
}

/// Every occurrence has an earliest one.
pub proof fn lemma_first_end_exists(p: Seq<u8>, s: Seq<u8>, e: int)
    requires
        ends_at(p, s, e),
    ensures
        exists|f: int| is_first_end(p, s, f),
    decreases e,
{
    if exists|j: int| 0 <= j < e && ends_at(p, s, j) {
        let j = choose|j: int| 0 <= j < e && ends_at(p, s, j);
        lemma_first_end_exists(p, s, j);
    } else {
        assert(is_first_end(p, s, e));
    }
}

/// The earliest occurrence is unique, so `scan_end` names it.
pub proof fn lemma_scan_end_is_first(p: Seq<u8>, s: Seq<u8>, e: int)
    requires
        is_first_end(p, s, e),
    ensures
        scan_end(p, s) == e,
{
    assert(occurs(p, s));
    let f = choose|f: int| is_first_end(p, s, f);
    assert(is_first_end(p, s, f));
    if f < e {
        assert(!ends_at(p, s, f));
    } else if e < f {
        assert(!ends_at(p, s, e));
    }
}

/// What a capture over `s` yields when `p` closes it: the bytes before the
/// earliest run of `p`, or nothing when `p` is absent or comes first.
pub open spec fn captured(p: Seq<u8>, s: Seq<u8>) -> Option<Seq<u8>> {
    if occurs(p, s) && scan_end(p, s) > p.len() {
        Some(s.subrange(0, scan_end(p, s) - p.len()))
    } else {
        None
    }
}

/// What an extraction over `s` yields: the capture closed by `end` that
/// follows the earliest run of `start`.
pub open spec fn extracted(start: Seq<u8>, end: Seq<u8>, s: Seq<u8>) -> Option<Seq<u8>> {
    if occurs(start, s) {
        captured(end, s.subrange(scan_end(start, s), s.len() as int))
    } else {
        None
    }
}

} // verus!

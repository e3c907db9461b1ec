use vstd::prelude::*;

use crate::pattern::{
    ends_at,
    extracted,
    is_first_end,
    lemma_first_end_exists,
    lemma_scan_end_is_first,
    occurs,
    scan_end,
};

verus! {

/// A scan stops inside its input: just after the earliest run of the
/// pattern when there is one, at the end otherwise.
pub proof fn lemma_scan_end_bounds(p: Seq<u8>, s: Seq<u8>)
    ensures
        0 <= scan_end(p, s) <= s.len(),
        occurs(p, s) ==> is_first_end(p, s, scan_end(p, s)),
{
    if occurs(p, s) {
        let e = choose|e: int| ends_at(p, s, e);
        lemma_first_end_exists(p, s, e);
        let f = choose|f: int| is_first_end(p, s, f);
        lemma_scan_end_is_first(p, s, f);
    }
}

/// A stream holds a pattern exactly when some run of consecutive bytes,
/// met by reading forward from its start, equals the pattern.
pub proof fn lemma_occurs_iff_run(p: Seq<u8>, s: Seq<u8>)
    ensures
        occurs(p, s) <==> exists|i: int|
            0 <= i && i + p.len() <= s.len() && #[trigger] s.subrange(i, i + p.len()) == p,
{
    if occurs(p, s) {
        let e = choose|e: int| ends_at(p, s, e);
        assert(s.subrange(e - p.len(), e - p.len() + p.len()) == p);
    }
    if exists|i: int| 0 <= i && i + p.len() <= s.len() && #[trigger] s.subrange(i, i + p.len()) == p {
        let i = choose|i: int|
            0 <= i && i + p.len() <= s.len() && #[trigger] s.subrange(i, i + p.len()) == p;
        assert(ends_at(p, s, i + p.len()));
    }
}

/// Without the start pattern nothing is extracted, whatever the end pattern.
pub proof fn lemma_no_start_no_extract(start: Seq<u8>, end: Seq<u8>, s: Seq<u8>)
    requires
        !occurs(start, s),
    ensures
        extracted(start, end, s) is None,
{
}

/// When the end pattern follows the start pattern at once, the empty
/// content counts as absent: nothing is extracted.
pub proof fn lemma_empty_content_is_absent(start: Seq<u8>, end: Seq<u8>, s: Seq<u8>)
    requires
        end.len() >= 1,
        occurs(start, s),
        scan_end(start, s) + end.len() <= s.len(),
        s.subrange(scan_end(start, s), scan_end(start, s) + end.len()) == end,
    ensures
        extracted(start, end, s) is None,
{
    lemma_scan_end_bounds(start, s);
    let e = scan_end(start, s);
    let rest = s.subrange(e, s.len() as int);
    assert(rest.subrange(0, end.len() as int) =~= end);
    assert(ends_at(end, rest, end.len() as int));
    assert(is_first_end(end, rest, end.len() as int));
    lemma_scan_end_is_first(end, rest, end.len() as int);
}

/// When the end pattern follows the start pattern after at least one byte,
/// the bytes between them are extracted.
pub proof fn lemma_content_between(start: Seq<u8>, end: Seq<u8>, s: Seq<u8>, c: Seq<u8>)
    requires
        end.len() >= 1,
        c.len() >= 1,
        occurs(start, s),
        scan_end(start, s) + c.len() + end.len() <= s.len(),
        s.subrange(scan_end(start, s), scan_end(start, s) + c.len()) == c,
        s.subrange(scan_end(start, s) + c.len(), scan_end(start, s) + c.len() + end.len()) == end,
        forall|j: int| end.len() <= j < c.len() + end.len() ==> !ends_at(end, c + end, j),
    ensures
        extracted(start, end, s) == Some(c),
{
    lemma_scan_end_bounds(start, s);
    let e = scan_end(start, s);
    let rest = s.subrange(e, s.len() as int);
    let k = (c.len() + end.len()) as int;
    assert(rest.subrange(0, k) =~= c + end);
    assert forall|j: int| 0 <= j <= k implies (ends_at(end, rest, j) <==> ends_at(end, c + end, j)) by {
        if end.len() <= j {
            assert(rest.subrange(j - end.len(), j) =~= (c + end).subrange(j - end.len(), j));
        }
    }
    assert((c + end).subrange(c.len() as int, k) =~= end);
    assert(ends_at(end, rest, k));
    assert(is_first_end(end, rest, k));
    lemma_scan_end_is_first(end, rest, k);
    assert(rest.subrange(0, c.len() as int) =~= c);
}

/// Extraction depends on the bytes of the stream alone: two streams with
/// the same bytes give the same result.
pub proof fn lemma_extract_depends_on_bytes_only(
    start: Seq<u8>,
    end: Seq<u8>,
    s1: Seq<u8>,
    s2: Seq<u8>,
)
    requires
        s1 =~= s2,
    ensures
        extracted(start, end, s1) == extracted(start, end, s2),
{
}

} // verus!

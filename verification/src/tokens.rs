//! Splitting text at a separator byte.

use vstd::prelude::*;
use vstd::slice::slice_subrange;

verus! {

/// The index of the first `sep` in `s`, or `s.len()` when `s` holds none.
pub open spec fn find<A>(s: Seq<A>, sep: A) -> int
    decreases s.len(),
{
    if s.len() == 0 || s[0] == sep {
        0
    } else {
        1 + find(s.drop_first(), sep)
    }
}

/// The parts of `s` between its separators, in order: what stands in front of
/// the first `sep`, then the parts of what follows it. A text without `sep`
/// is its own single part, so there is always one part more than separators.
pub open spec fn split(s: Seq<u8>, sep: u8) -> Seq<Seq<u8>>
    decreases s.len(),
{
    let k = find(s, sep);
    if 0 <= k < s.len() {
        seq![s.take(k)] + split(s.skip(k + 1), sep)
    } else {
        seq![s]
    }
}

/// `s` holds no `sep`.
pub open spec fn free_of<A>(s: Seq<A>, sep: A) -> bool {
    forall|i: int| 0 <= i < s.len() ==> s[i] != sep
}

/// The views of the parts that a split handed out.
pub open spec fn views(parts: Seq<&[u8]>) -> Seq<Seq<u8>> {
    parts.map_values(|p: &[u8]| p@)
}

/// `find` stays inside the text, nothing in front of it is the separator, and
/// where it stops short of the end it stands on one.
pub proof fn lemma_find<A>(s: Seq<A>, sep: A)
    ensures
        0 <= find(s, sep) <= s.len(),
        free_of(s.take(find(s, sep)), sep),
        find(s, sep) < s.len() ==> s[find(s, sep)] == sep,
    decreases s.len(),
{
    if s.len() == 0 || s[0] == sep {
    } else {
        let rest = s.drop_first();
        lemma_find(rest, sep);
        let k = find(rest, sep);
        let front = s.take(k + 1);
        assert forall|i: int| 0 <= i < front.len() implies front[i] != sep by {
            if i > 0 {
                assert(rest.take(k)[i - 1] == s[i]);
            }
        }
    }
}

/// The first separator is where `find` says: a position with none in front of
/// it that is the end of the text or holds the separator.
pub proof fn lemma_find_is<A>(s: Seq<A>, sep: A, k: int)
    requires
        0 <= k <= s.len(),
        free_of(s.take(k), sep),
        k < s.len() ==> s[k] == sep,
    ensures
        find(s, sep) == k,
    decreases s.len(),
{
    if k == 0 {
    } else {
        assert(s.take(k)[0] == s[0]);
        let rest = s.drop_first();
        let front = rest.take(k - 1);
        assert forall|i: int| 0 <= i < front.len() implies front[i] != sep by {
            assert(s.take(k)[i + 1] == rest[i]);
        }
        lemma_find_is(rest, sep, k - 1);
    }
}

/// A text without the separator splits into itself.
pub proof fn lemma_split_whole(s: Seq<u8>, sep: u8)
    requires
        free_of(s, sep),
    ensures
        split(s, sep) == seq![s],
{
    assert(s.take(s.len() as int) == s);
    lemma_find_is(s, sep, s.len() as int);
}

/// Splitting `head`, a separator and `tail`, where `head` holds no separator,
/// gives `head` and then the parts of `tail`.
pub proof fn lemma_split_joined(head: Seq<u8>, sep: u8, tail: Seq<u8>)
    requires
        free_of(head, sep),
    ensures
        split(head + seq![sep] + tail, sep) == seq![head] + split(tail, sep),
{
    let s = head + seq![sep] + tail;
    let k = head.len() as int;
    assert(s.take(k) == head);
    assert(s.skip(k + 1) == tail);
    lemma_find_is(s, sep, k);
}

/// Finds the first `sep` at or after `from`.
pub fn find_from(s: &[u8], from: usize, sep: u8) -> (at: usize)
    requires
        from <= s.len(),
    ensures
        at == from + find(s@.skip(from as int), sep),
        from <= at <= s.len(),
{
    let mut at = from;
    while at < s.len() && s[at] != sep
        invariant
            from <= at <= s.len(),
            forall|i: int| from <= i < at ==> s@[i] != sep,
        decreases s.len() - at,
    {
        at += 1;
    }
    proof {
        let rest = s@.skip(from as int);
        let front = rest.take(at - from);
        assert forall|i: int| 0 <= i < front.len() implies front[i] != sep by {
            assert(front[i] == s@[from + i]);
        }
        lemma_find_is(rest, sep, at - from);
    }
    at
}

/// Splits `s` at every `sep`. The parts borrow from `s`.
pub fn split_at_byte<'a>(s: &'a [u8], sep: u8) -> (parts: Vec<&'a [u8]>)
    ensures
        views(parts@) == split(s@, sep),
{
    let mut parts: Vec<&'a [u8]> = Vec::new();
    let mut start: usize = 0;
    proof {
        assert(s@.skip(0) == s@);
        assert(views(parts@) + split(s@, sep) == split(s@, sep));
    }
    loop
        invariant_except_break
            start <= s.len(),
            split(s@, sep) == views(parts@) + split(s@.skip(start as int), sep),
        ensures
            views(parts@) == split(s@, sep),
        decreases s.len() - start,
    {
        let end = find_from(s, start, sep);
        let part = slice_subrange(s, start, end);
        proof {
            let rest = s@.skip(start as int);
            let k = end - start;
            assert(rest.take(k) == part@);
            assert(views(parts@.push(part)) == views(parts@) + seq![part@]);
            if end < s.len() {
                assert(rest.skip(k + 1) == s@.skip(end + 1));
                assert(split(rest, sep) == seq![part@] + split(s@.skip(end + 1), sep));
                assert(split(s@, sep) == views(parts@.push(part)) + split(
                    s@.skip(end + 1),
                    sep,
                ));
            } else {
                assert(split(rest, sep) == seq![part@]);
            }
        }
        parts.push(part);
        if end == s.len() {
            break;
        }
        start = end + 1;
    }
    parts
}

} // verus!

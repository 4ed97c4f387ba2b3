//! Whole-line extraction from the bytes read at the cursor.
//!
//! A line is delivered only once its terminator has been written: a trailing
//! partial line is never handed out, and is re-read from the same offset on
//! the next poll, so a write split across two flushes is never split across
//! two deliveries.

use vstd::prelude::*;

verus! {

/// The line terminator: a newline byte.
pub const LINE_TERMINATOR: u8 = 10;

/// Whether the byte sequence holds a line terminator anywhere.
pub open spec fn contains_terminator(s: Seq<u8>) -> bool {
    exists|i: int| 0 <= i < s.len() && s[i] == LINE_TERMINATOR
}

/// `n` is the byte length, terminator included, of the first complete line
/// of `s`: the terminator stands at `n - 1` and nowhere earlier.
pub open spec fn is_first_line_len(s: Seq<u8>, n: int) -> bool {
    &&& 1 <= n <= s.len()
    &&& s[n - 1] == LINE_TERMINATOR
    &&& forall|k: int| 0 <= k < n - 1 ==> s[k] != LINE_TERMINATOR
}

/// The sequence with every terminator byte removed: the delivered text of a
/// line is its bytes stripped this way.
pub open spec fn strip_terminators(s: Seq<u8>) -> Seq<u8>
    decreases s.len(),
{
    if s.len() == 0 {
        Seq::empty()
    } else if s.last() == LINE_TERMINATOR {
        strip_terminators(s.drop_last())
    } else {
        strip_terminators(s.drop_last()).push(s.last())
    }
}

/// Byte length, terminator included, of the first complete line of `buf` at
/// or after `start`; `None` when no complete line is available there.
pub fn next_line_len(buf: &Vec<u8>, start: usize) -> (r: Option<usize>)
    requires
        start <= buf.len(),
    ensures
        match r {
            Some(n) => n <= buf.len() - start && is_first_line_len(buf@.skip(start as int), n as int),
            None => !contains_terminator(buf@.skip(start as int)),
        },
{
    let ghost tail = buf@.skip(start as int);
    let mut i: usize = start;
    while i < buf.len()
        invariant
            start <= i <= buf.len(),
            tail == buf@.skip(start as int),
            forall|k: int| start <= k < i ==> buf@[k] != LINE_TERMINATOR,
        decreases buf.len() - i,
    {
        if buf[i] == LINE_TERMINATOR {
            proof {
                assert(tail[i - start] == buf@[i as int]);
                assert(forall|k: int| 0 <= k < i - start ==> tail[k] == buf@[k + start]);
            }
            return Some(i + 1 - start);
        }
        i = i + 1;
    }
    proof {
        assert(forall|k: int| 0 <= k < tail.len() ==> tail[k] == buf@[k + start]);
    }
    None
}

/// The delivered text of the line of `len` bytes starting at `start` of
/// `buf`: those bytes with the terminators removed.
pub fn line_text(buf: &Vec<u8>, start: usize, len: usize) -> (r: Vec<u8>)
    requires
        start + len <= buf.len(),
    ensures
        r@ == strip_terminators(buf@.subrange(start as int, start + len)),
{
    let mut r: Vec<u8> = Vec::new();
    let mut i: usize = 0;
    while i < len
        invariant
            i <= len,
            start + len <= buf.len(),
            r@ == strip_terminators(buf@.subrange(start as int, start + i)),
        decreases len - i,
    {
        let b = buf[start + i];
        proof {
            let next = buf@.subrange(start as int, start + i + 1);
            assert(next.drop_last() =~= buf@.subrange(start as int, start + i));
            assert(next.last() == buf@[start + i]);
        }
        if b != LINE_TERMINATOR {
            r.push(b);
        }
        i = i + 1;
    }
    r
}

/// A terminator-free sequence is unchanged by stripping.
pub proof fn lemma_strip_terminators_id(s: Seq<u8>)
    requires
        !contains_terminator(s),
    ensures
        strip_terminators(s) == s,
    decreases s.len(),
{
    if s.len() == 0 {
        assert(strip_terminators(s) =~= s);
    } else {
        assert(forall|k: int| 0 <= k < s.drop_last().len() ==> s.drop_last()[k] == s[k]);
        lemma_strip_terminators_id(s.drop_last());
        assert(strip_terminators(s) =~= s);
    }
}

/// A complete line's delivered text is exactly the bytes before its
/// terminator.
pub proof fn lemma_line_text_drops_terminator(s: Seq<u8>, n: int)
    requires
        is_first_line_len(s, n),
    ensures
        strip_terminators(s.subrange(0, n)) == s.subrange(0, n - 1),
{
    let line = s.subrange(0, n);
    assert(line.last() == s[n - 1]);
    assert(line.drop_last() =~= s.subrange(0, n - 1));
    assert(forall|k: int| 0 <= k < n - 1 ==> s.subrange(0, n - 1)[k] == s[k]);
    lemma_strip_terminators_id(s.subrange(0, n - 1));
}

/// No split lines: while the pending bytes hold no terminator, no line is
/// delivered from them; once later bytes complete the line, the one
/// delivery covers every pending byte.
pub proof fn lemma_no_split_lines(pending: Seq<u8>, appended: Seq<u8>)
    requires
        !contains_terminator(pending),
    ensures
        forall|n: int| !is_first_line_len(pending, n),
        forall|n: int| is_first_line_len(pending + appended, n) ==> n > pending.len(),
{
    assert forall|n: int| is_first_line_len(pending + appended, n) implies n > pending.len() by {
        if n <= pending.len() {
            assert((pending + appended)[n - 1] == pending[n - 1]);
        }
    }
}

} // verus!

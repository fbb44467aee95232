//! Laws relating the one-shot parser, the scanner and the incremental
//! session, stated over the same spec functions their contracts use.

use vstd::prelude::*;

use crate::grammar::{lemma_top_bounds, lit_at, sp_find_start, sp_parse_strict, sp_scan, sp_top,
    start_marker};
use crate::scanner::sp_parse_with_nom;
use crate::session::{distinct_calls, sp_feed, sp_merge};
use crate::value::{contains_call, CallView};

verus! {

broadcast use vstd::seq::group_seq_axioms;

/// On an input that the top-level parser consumes whole, the scanner finds
/// exactly the parser's calls: the input begins with a candidate, the parse
/// there succeeds, and nothing is left to scan.
pub proof fn lemma_scan_of_full_parse(s: Seq<char>, calls: Seq<CallView>)
    requires
        sp_top(s, 0) == Some((calls, s.len() as int)),
    ensures
        sp_scan(s, 0) == calls,
{
    lemma_top_bounds(s, 0);
    assert(s.len() > 0);
    // the input begins with the start marker or an opening bracket
    assert(lit_at(s, 0, start_marker()) || s[0] == '[') by {
        if !lit_at(s, 0, start_marker()) {
            assert(sp_top(s, 0) == crate::grammar::sp_call_list(s, 0));
        }
    }
    assert(sp_find_start(s, 0) == Some(0int));
    assert(sp_scan(s, s.len() as int) =~= Seq::<CallView>::empty());
    assert(sp_scan(s, 0) == calls + sp_scan(s, s.len() as int));
    assert(calls + Seq::<CallView>::empty() =~= calls);
}

/// Merging into the empty record keeps a duplicate-free sequence as it is.
pub proof fn lemma_merge_into_empty(f: Seq<CallView>)
    requires
        distinct_calls(f),
    ensures
        sp_merge(Seq::empty(), f) == f,
    decreases f,
{
    if f.len() == 0 {
        assert(sp_merge(Seq::<CallView>::empty(), f) =~= f);
    } else {
        assert(distinct_calls(f.drop_last())) by {
            assert(forall|i: int| 0 <= i < f.drop_last().len() ==> f.drop_last()[i] == f[i]);
        }
        lemma_merge_into_empty(f.drop_last());
        assert(!contains_call(f.drop_last(), f.last())) by {
            if contains_call(f.drop_last(), f.last()) {
                let i = choose|i: int| 0 <= i < f.drop_last().len() && f.drop_last()[i]
                    == f.last();
                assert(f[i] == f[f.len() - 1]);
            }
        }
        assert(sp_merge(Seq::<CallView>::empty(), f) == f.drop_last().push(f.last()));
        assert(f.drop_last().push(f.last()) =~= f);
    }
}

/// Every call among the found ones is present after the merge.
pub proof fn lemma_merge_contains(p: Seq<CallView>, f: Seq<CallView>)
    ensures
        forall|k: int| 0 <= k < f.len() ==> contains_call(#[trigger] sp_merge(p, f), f[k]),
        forall|c: CallView| contains_call(p, c) ==> contains_call(sp_merge(p, f), c),
    decreases f,
{
    if f.len() > 0 {
        lemma_merge_contains(p, f.drop_last());
        let pre = sp_merge(p, f.drop_last());
        let whole = sp_merge(p, f);
        assert(contains_call(whole, f.last())) by {
            if contains_call(pre, f.last()) {
                let i = choose|i: int| 0 <= i < pre.len() && pre[i] == f.last();
                assert(whole[i] == f.last());
            } else {
                assert(whole == pre.push(f.last()));
                assert(whole[whole.len() - 1] == f.last());
            }
        }
        assert forall|c: CallView| contains_call(pre, c) implies contains_call(whole, c) by {
            let i = choose|i: int| 0 <= i < pre.len() && pre[i] == c;
            assert(whole[i] == c);
        }
        assert forall|k: int| 0 <= k < f.len() implies contains_call(whole, f[k]) by {
            if k < f.len() - 1 {
                assert(f.drop_last()[k] == f[k]);
                assert(contains_call(pre, f[k]));
            }
        }
    }
}

/// Merging found calls that are all already present changes nothing.
pub proof fn lemma_merge_noop(q: Seq<CallView>, f: Seq<CallView>)
    requires
        forall|k: int| 0 <= k < f.len() ==> contains_call(q, #[trigger] f[k]),
    ensures
        sp_merge(q, f) == q,
    decreases f,
{
    if f.len() > 0 {
        assert(forall|k: int| 0 <= k < f.drop_last().len() ==> f.drop_last()[k] == f[k]);
        lemma_merge_noop(q, f.drop_last());
        assert(contains_call(q, f[f.len() - 1]));
    }
}

/// Merging the same found calls twice is the same as merging them once.
pub proof fn lemma_merge_absorb(p: Seq<CallView>, f: Seq<CallView>)
    ensures
        sp_merge(sp_merge(p, f), f) == sp_merge(p, f),
{
    lemma_merge_contains(p, f);
    lemma_merge_noop(sp_merge(p, f), f);
}

/// The record is append-only: a merge keeps every already-recorded call at
/// its place and only appends after them, so the session's record grows
/// monotonically across feeds.
pub proof fn lemma_merge_append_only(p: Seq<CallView>, f: Seq<CallView>)
    ensures
        p.len() <= sp_merge(p, f).len(),
        forall|k: int| 0 <= k < p.len() ==> #[trigger] sp_merge(p, f)[k] == p[k],
    decreases f,
{
    if f.len() > 0 {
        lemma_merge_append_only(p, f.drop_last());
        let pre = sp_merge(p, f.drop_last());
        if !contains_call(pre, f.last()) {
            assert(forall|k: int| 0 <= k < p.len() ==> pre.push(f.last())[k] == pre[k]);
        }
    }
}

/// A merge never records a duplicate: if the recorded calls are pairwise
/// distinct, they stay so after any merge.
pub proof fn lemma_merge_distinct(p: Seq<CallView>, f: Seq<CallView>)
    requires
        distinct_calls(p),
    ensures
        distinct_calls(sp_merge(p, f)),
    decreases f,
{
    if f.len() > 0 {
        lemma_merge_distinct(p, f.drop_last());
        let pre = sp_merge(p, f.drop_last());
        if !contains_call(pre, f.last()) {
            assert forall|i: int, j: int| 0 <= i < j < pre.push(f.last()).len() implies pre.push(
                f.last(),
            )[i] != pre.push(f.last())[j] by {
                if j < pre.len() {
                } else {
                    assert(pre.push(f.last())[j] == f.last());
                    assert(pre.push(f.last())[i] == pre[i]);
                }
            }
        }
    }
}

/// For any input that fully matches the grammar, with no call repeated, the
/// strict parse, the one-shot parse and a single feed of the whole input
/// into a fresh session return identical ordered call lists.
///
/// The distinctness hypothesis is needed: on an input whose call list
/// repeats a call, the session's deduplication records the repeated call
/// once, while the parsers return every occurrence.
pub proof fn lemma_parse_feed_agree(s: Seq<char>, calls: Seq<CallView>)
    requires
        sp_parse_strict(s) == Some(calls),
        distinct_calls(calls),
    ensures
        sp_parse_with_nom(s) == Some(calls),
        sp_feed(Seq::empty(), Seq::empty(), s).1 == calls,
{
    assert(sp_top(s, 0) == Some((calls, s.len() as int)));
    lemma_scan_of_full_parse(s, calls);
    lemma_merge_into_empty(calls);
    assert(Seq::<char>::empty() + s =~= s);
    if calls.len() == 0 {
        assert(sp_parse_with_nom(s) == Some(calls));
    }
}

/// Feeding the empty chunk right after a feed returns exactly the calls the
/// first feed returned, and leaves the session unchanged.
pub proof fn lemma_feed_empty_idempotent(rem: Seq<char>, parsed: Seq<CallView>, chunk: Seq<char>)
    ensures
        sp_feed(sp_feed(rem, parsed, chunk).0, sp_feed(rem, parsed, chunk).1, Seq::empty())
            == sp_feed(rem, parsed, chunk),
{
    let st1 = sp_feed(rem, parsed, chunk);
    assert(st1.0 + Seq::<char>::empty() =~= st1.0);
    lemma_merge_absorb(parsed, sp_scan(rem + chunk, 0));
}

/// Splitting an input into two chunks at a point whose prefix alone yields
/// no scanned calls — a split inside a quoted string's escape sequence
/// among them — and feeding the chunks in turn leaves a fresh session
/// exactly as feeding the whole input in one chunk does.
///
/// The hypothesis on the prefix is needed: a prefix can end in a spot where
/// an embedded candidate parses on its own — splitting
/// `[f(x="[g()]")]` right after the inner `]` frees `[g()]` to parse as a
/// call of its own — and the call recorded from it is not one the whole
/// input yields.
pub proof fn lemma_chunk_boundary(a: Seq<char>, b: Seq<char>)
    requires
        sp_scan(a, 0) == Seq::<CallView>::empty(),
    ensures
        sp_feed(
            sp_feed(Seq::empty(), Seq::empty(), a).0,
            sp_feed(Seq::empty(), Seq::empty(), a).1,
            b,
        ) == sp_feed(Seq::empty(), Seq::empty(), a + b),
{
    assert(Seq::<char>::empty() + a =~= a);
    assert(Seq::<char>::empty() + (a + b) =~= a + b);
    let st1 = sp_feed(Seq::<char>::empty(), Seq::<CallView>::empty(), a);
    assert(st1.1 =~= Seq::<CallView>::empty());
    assert(st1.0 =~= a);
}

} // verus!

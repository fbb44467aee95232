//! The surrounding-text scanner: extracts call lists embedded anywhere in
//! larger text, skipping spans that do not parse, and the entry point that
//! combines it with the strict parser.

use vstd::prelude::*;

use crate::grammar::{sp_find_start, sp_scan, sp_top};
use crate::parser::{top_parse, ErrorKind, ParseError};
use crate::text::chars_of;
use crate::value::{calls_view, calls_wf, CallView, FunctionCall};

verus! {

broadcast use vstd::seq::group_seq_axioms, vstd::std_specs::vec::group_vec_axioms;

/// What the combined entry point returns: the scan's calls when it found
/// any, else whatever the strict top-level parse yields.
pub open spec fn sp_parse_with_nom(s: Seq<char>) -> Option<Seq<CallView>> {
    if sp_scan(s, 0).len() > 0 {
        Some(sp_scan(s, 0))
    } else {
        match sp_top(s, 0) {
            Some((calls, m)) => Some(calls),
            None => None,
        }
    }
}

/// Earliest position at or after `i` where a start marker or an opening
/// bracket stands.
fn find_start_from(v: &Vec<char>, i: usize) -> (r: Option<usize>)
    requires
        i <= v@.len(),
    ensures
        match r {
            Some(j) => sp_find_start(v@, i as int) == Some(j as int) && i <= j < v@.len(),
            None => sp_find_start(v@, i as int) is None,
        },
{
    let n: usize = v.len();
    let sm = crate::parser::lit_start_marker();
    let mut j: usize = i;
    while j < n
        invariant
            i <= j <= n,
            n == v@.len(),
            sm@ == crate::grammar::start_marker(),
            sp_find_start(v@, i as int) == sp_find_start(v@, j as int),
        decreases n - j,
    {
        if crate::parser::lit_match(v, j, &sm) || v[j] == '[' {
            proof {
                assert(sp_find_start(v@, j as int) == Some(j as int));
            }
            return Some(j);
        }
        proof {
            assert(sp_find_start(v@, j as int) == sp_find_start(v@, j + 1));
        }
        j = j + 1;
    }
    proof {
        assert(sp_find_start(v@, j as int) is None);
    }
    None
}

/// Earliest position of a start marker or an opening bracket in the text.
pub fn find_next_pattern_start(input: &str) -> (r: Option<usize>)
    ensures
        match r {
            Some(j) => sp_find_start(input@, 0) == Some(j as int) && j < input@.len(),
            None => sp_find_start(input@, 0) is None,
        },
{
    let v = chars_of(input);
    find_start_from(&v, 0)
}

/// The scan over the whole character buffer from the front.
pub(crate) fn scan_chars(v: &Vec<char>) -> (r: Vec<FunctionCall>)
    ensures
        calls_view(r@) == sp_scan(v@, 0),
        calls_wf(r@),
{
    let n: usize = v.len();
    let mut out: Vec<FunctionCall> = Vec::new();
    let mut cur: usize = 0;
    proof {
        assert(calls_view(out@) == Seq::<CallView>::empty());
    }
    loop
        invariant
            cur <= n,
            n == v@.len(),
            calls_wf(out@),
            sp_scan(v@, 0) == calls_view(out@) + sp_scan(v@, cur as int),
        decreases n - cur,
    {
        match find_start_from(v, cur) {
            None => {
                proof {
                    assert(sp_scan(v@, cur as int) =~= Seq::<CallView>::empty());
                    assert(calls_view(out@) + Seq::<CallView>::empty() =~= calls_view(out@));
                }
                return out;
            },
            Some(j) => {
                match top_parse(v, j) {
                    Some((calls, m)) => {
                        proof {
                            assert(sp_scan(v@, cur as int) == calls_view(calls@) + sp_scan(
                                v@,
                                m as int,
                            ));
                        }
                        let ghost old_out = out@;
                        let ghost found = calls@;
                        let mut calls2 = calls;
                        out.append(&mut calls2);
                        proof {
                            crate::value::lemma_calls_view_add(old_out, found);
                            assert(calls_view(out@) == calls_view(old_out) + calls_view(found));
                            assert(calls_view(old_out) + (calls_view(found) + sp_scan(
                                v@,
                                m as int,
                            )) =~= (calls_view(old_out) + calls_view(found)) + sp_scan(
                                v@,
                                m as int,
                            ));
                            assert forall|t: int| 0 <= t < out@.len() implies (#[trigger] out@[t]).wf() by {
                                if t < old_out.len() {
                                    assert(old_out[t].wf());
                                } else {
                                    assert(found[t - old_out.len()].wf());
                                }
                            }
                        }
                        cur = m;
                    },
                    None => {
                        proof {
                            assert(sp_scan(v@, cur as int) == sp_scan(v@, j + 1));
                        }
                        cur = j + 1;
                    },
                }
            },
        }
    }
}

/// Extraction of every call list embedded in the text: prose and malformed
/// spans are skipped, and a candidate that fails to parse is retried one
/// position further on.  The scan itself never fails.
pub fn parse_python_with_surrounding_text(input: &str) -> (r: Result<Vec<FunctionCall>, ParseError>)
    ensures
        r is Ok,
        r matches Ok(calls) ==> calls_view(calls@) == sp_scan(input@, 0) && calls_wf(calls@),
{
    let v = chars_of(input);
    Ok(scan_chars(&v))
}

/// The one-shot parser: first the scanner over the whole input; when that
/// finds nothing, the strict top-level parse, whose error is surfaced.
pub fn parse_python_with_nom(source: &str) -> (r: Result<Vec<FunctionCall>, ParseError>)
    ensures
        match r {
            Ok(calls) => sp_parse_with_nom(source@) == Some(calls_view(calls@)) && calls_wf(
                calls@,
            ),
            Err(e) => sp_parse_with_nom(source@) is None && e.pos <= source@.len() && e.kind
                != ErrorKind::UnsupportedEngine,
        },
{
    let v = chars_of(source);
    let scanned = scan_chars(&v);
    proof {
        crate::value::lemma_calls_view_len(scanned@);
    }
    if scanned.len() > 0 {
        Ok(scanned)
    } else {
        match crate::parser::parse_python_nom(source) {
            Ok((calls, _consumed)) => Ok(calls),
            Err(e) => Err(e),
        }
    }
}

} // verus!

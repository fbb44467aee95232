//! The incremental session: buffered, cumulative parsing across chunk
//! deliveries.  Text arrives in arbitrary pieces; the session re-scans its
//! whole buffer on every delivery and accumulates each call it has not
//! recorded before.

use vstd::prelude::*;

use crate::grammar::sp_scan;
use crate::parser::ParseError;
use crate::scanner::scan_chars;
use crate::text::chars_of;
use crate::value::{
    calls_contains, calls_view, calls_wf, contains_call, copy_call, copy_calls, CallView,
    FunctionCall, Value,
};

verus! {

broadcast use vstd::seq::group_seq_axioms, vstd::std_specs::vec::group_vec_axioms;

/// The recorded calls after the found ones are folded in, left to right: a
/// call structurally equal to one already present, among the recorded ones
/// or earlier in the found ones, is dropped; the rest are appended in order.
pub open spec fn sp_merge(parsed: Seq<CallView>, found: Seq<CallView>) -> Seq<CallView>
    decreases found,
{
    if found.len() == 0 {
        parsed
    } else {
        let pre = sp_merge(parsed, found.drop_last());
        if contains_call(pre, found.last()) {
            pre
        } else {
            pre.push(found.last())
        }
    }
}

/// The session state after one chunk: the chunk is appended to the buffer,
/// the whole buffer is re-scanned, and the scan's calls are merged into the
/// recorded ones.
pub open spec fn sp_feed(
    remainder: Seq<char>,
    parsed: Seq<CallView>,
    chunk: Seq<char>,
) -> (Seq<char>, Seq<CallView>) {
    (remainder + chunk, sp_merge(parsed, sp_scan(remainder + chunk, 0)))
}

/// No call view appears twice.
pub open spec fn distinct_calls(s: Seq<CallView>) -> bool {
    forall|i: int, j: int| 0 <= i < j < s.len() ==> s[i] != s[j]
}

/// State carried across chunk deliveries: the buffered text and the calls
/// recorded so far.  The two flags and the partial function mirror the shape
/// of the state a finer-grained scanner would keep; the buffer re-scan never
/// reads them.
#[derive(Debug)]
pub struct NomParserState {
    pub remainder: String,
    pub parsed_functions: Vec<FunctionCall>,
    pub in_python_block: bool,
    pub in_function_list: bool,
    pub current_function: Option<PartialFunction>,
}

/// A function call under construction.
#[derive(Debug)]
pub struct PartialFunction {
    pub name: String,
    pub kwargs: Vec<(String, Value)>,
    pub in_args: bool,
}

impl NomParserState {
    /// Well-formedness: the recorded calls are well-formed and pairwise
    /// distinct.
    pub open spec fn wf(&self) -> bool {
        &&& calls_wf(self.parsed_functions@)
        &&& distinct_calls(calls_view(self.parsed_functions@))
    }

    /// A fresh session: empty buffer, no recorded calls.
    pub fn new() -> (r: NomParserState)
        ensures
            r.wf(),
            r.remainder@ == Seq::<char>::empty(),
            calls_view(r.parsed_functions@) == Seq::<CallView>::empty(),
    {
        NomParserState {
            remainder: String::new(),
            parsed_functions: Vec::new(),
            in_python_block: false,
            in_function_list: false,
            current_function: None,
        }
    }

    /// Clears the buffer and the recorded calls, starting a new stream.
    pub fn reset(&mut self)
        ensures
            final(self).wf(),
            final(self).remainder@ == Seq::<char>::empty(),
            calls_view(final(self).parsed_functions@) == Seq::<CallView>::empty(),
    {
        self.remainder = String::new();
        self.parsed_functions = Vec::new();
        self.in_python_block = false;
        self.in_function_list = false;
        self.current_function = None;
    }

    /// Appends a chunk to the buffer without scanning it.
    pub fn add_input(&mut self, input: &str)
        ensures
            final(self).remainder@ == old(self).remainder@ + input@,
            final(self).parsed_functions == old(self).parsed_functions,
            old(self).wf() ==> final(self).wf(),
    {
        self.remainder.append(input);
    }

    /// A copy of the calls recorded so far, in arrival order.
    pub fn get_parsed_functions(&self) -> (r: Vec<FunctionCall>)
        ensures
            calls_view(r@) == calls_view(self.parsed_functions@),
            self.wf() ==> calls_wf(r@),
    {
        copy_calls(&self.parsed_functions)
    }
}

impl Default for NomParserState {
    /// A fresh session, as `new` builds it.
    fn default() -> (r: NomParserState)
        ensures
            r.wf(),
            r.remainder@ == Seq::<char>::empty(),
            calls_view(r.parsed_functions@) == Seq::<CallView>::empty(),
    {
        NomParserState::new()
    }
}

/// The recorded calls with the found ones folded in under the session's
/// deduplication rule.
fn merge_calls(parsed: &Vec<FunctionCall>, found: &Vec<FunctionCall>) -> (r: Vec<FunctionCall>)
    requires
        calls_wf(parsed@),
        calls_wf(found@),
        distinct_calls(calls_view(parsed@)),
    ensures
        calls_view(r@) == sp_merge(calls_view(parsed@), calls_view(found@)),
        calls_wf(r@),
        distinct_calls(calls_view(r@)),
{
    let n: usize = found.len();
    let mut out: Vec<FunctionCall> = copy_calls(parsed);
    let ghost recorded = calls_view(parsed@);
    let ghost vf = calls_view(found@);
    proof {
        crate::value::lemma_calls_view_len(found@);
        assert(vf.subrange(0, 0) =~= Seq::<CallView>::empty());
    }
    let mut i: usize = 0;
    while i < n
        invariant
            i <= n,
            n == found@.len(),
            vf == calls_view(found@),
            vf.len() == n,
            calls_wf(found@),
            calls_wf(out@),
            distinct_calls(calls_view(out@)),
            calls_view(out@) == sp_merge(recorded, vf.subrange(0, i as int)),
        decreases n - i,
    {
        proof {
            crate::value::lemma_calls_view_index(found@, i as int);
            assert(vf.subrange(0, i + 1).drop_last() =~= vf.subrange(0, i as int));
            assert(vf.subrange(0, i + 1).last() == vf[i as int]);
        }
        let present = calls_contains(&out, &found[i]);
        if !present {
            let ghost old_out = out@;
            let c = copy_call(&found[i]);
            out.push(c);
            proof {
                crate::value::lemma_calls_view_push(old_out, out@.last());
                assert(calls_view(out@) == calls_view(old_out).push(found@[i as int]@));
                assert forall|x: int, y: int|
                    0 <= x < y < calls_view(out@).len() implies calls_view(out@)[x]
                    != calls_view(out@)[y] by {
                    if y < calls_view(old_out).len() {
                    } else {
                        assert(calls_view(out@)[y] == found@[i as int]@);
                        assert(!contains_call(calls_view(old_out), found@[i as int]@));
                        assert(calls_view(out@)[x] == calls_view(old_out)[x]);
                    }
                }
            }
        }
        i = i + 1;
    }
    proof {
        assert(vf.subrange(0, n as int) =~= vf);
    }
    out
}

/// Delivers one chunk: the buffer grows by the chunk, the whole buffer is
/// re-scanned, each scanned call not yet recorded is appended in scan order,
/// and the full cumulative list is returned.  A chunk never fails: an
/// unparseable buffer simply yields no new calls yet.
pub fn parse_incremental(state: &mut NomParserState, chunk: &str) -> (r: Result<
    Vec<FunctionCall>,
    ParseError,
>)
    requires
        old(state).wf(),
    ensures
        final(state).wf(),
        final(state).remainder@ == old(state).remainder@ + chunk@,
        calls_view(final(state).parsed_functions@) == sp_feed(
            old(state).remainder@,
            calls_view(old(state).parsed_functions@),
            chunk@,
        ).1,
        r matches Ok(calls) ==> calls_view(calls@) == calls_view(final(state).parsed_functions@)
            && calls_wf(calls@),
        r is Ok,
{
    state.add_input(chunk);
    let v = chars_of(state.remainder.as_str());
    let found = scan_chars(&v);
    let merged = merge_calls(&state.parsed_functions, &found);
    state.parsed_functions = merged;
    Ok(copy_calls(&state.parsed_functions))
}

/// A session handle that owns its state: the form a host runtime drives,
/// one instance per generation stream.
#[derive(Debug)]
pub struct IncrementalParser {
    pub state: NomParserState,
}

impl IncrementalParser {
    /// Well-formedness of the owned state.
    pub open spec fn wf(&self) -> bool {
        self.state.wf()
    }

    /// A fresh parser with an empty session.
    pub fn new() -> (r: IncrementalParser)
        ensures
            r.wf(),
            r.state.remainder@ == Seq::<char>::empty(),
            calls_view(r.state.parsed_functions@) == Seq::<CallView>::empty(),
    {
        IncrementalParser { state: NomParserState::new() }
    }

    /// Delivers one chunk and returns the full cumulative call list.
    pub fn parse_chunk(&mut self, chunk: &str) -> (r: Result<Vec<FunctionCall>, ParseError>)
        requires
            old(self).wf(),
        ensures
            final(self).wf(),
            final(self).state.remainder@ == old(self).state.remainder@ + chunk@,
            calls_view(final(self).state.parsed_functions@) == sp_feed(
                old(self).state.remainder@,
                calls_view(old(self).state.parsed_functions@),
                chunk@,
            ).1,
            r matches Ok(calls) ==> calls_view(calls@) == calls_view(
                final(self).state.parsed_functions@,
            ) && calls_wf(calls@),
            r is Ok,
    {
        parse_incremental(&mut self.state, chunk)
    }

    /// Clears the session, starting a new stream.
    pub fn reset(&mut self)
        ensures
            final(self).wf(),
            final(self).state.remainder@ == Seq::<char>::empty(),
            calls_view(final(self).state.parsed_functions@) == Seq::<CallView>::empty(),
    {
        self.state.reset();
    }

    /// A copy of the calls recorded so far, in arrival order.
    pub fn get_parsed_functions(&self) -> (r: Vec<FunctionCall>)
        ensures
            calls_view(r@) == calls_view(self.state.parsed_functions@),
            self.wf() ==> calls_wf(r@),
    {
        self.state.get_parsed_functions()
    }
}

} // verus!

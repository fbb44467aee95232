//! The token engine: a tolerant parse over the token stream that hunts for
//! bracketed call lists and skips everything else, with its mathematical
//! mirror.
//!
//! Where the character-level engine is strict, this engine recovers: an
//! unexpected token inside an argument list is skipped, a missing value
//! becomes the null literal, and the end of input closes every open call.

use vstd::prelude::*;

use crate::lex::{lemma_toks_view_index, lemma_toks_view_len, sp_lex, tok_view, tokenize, toks_view, LexError, TokView, Token};
use crate::parser::ParseError;
use crate::value::{
    calls_view, calls_wf, kwargs_insert, kwargs_view, kwargs_wf, lemma_calls_view_push,
    lemma_view_variant, view_seq, CallView, FunctionCall, Value, ValueView,
};

verus! {

broadcast use vstd::seq::group_seq_axioms, vstd::std_specs::vec::group_vec_axioms;

/// After an argument's value: a closing parenthesis ends the call; any other
/// token, a comma included, is consumed and argument parsing goes on; the
/// end of input consumes nothing.
pub open spec fn sp_hpv(ts: Seq<TokView>, i: int) -> (bool, int) {
    if 0 <= i < ts.len() {
        if ts[i] is ParenClose {
            (true, i + 1)
        } else {
            (false, i + 1)
        }
    } else {
        (false, i)
    }
}

/// Keyword-argument parsing from inside a call's parentheses: identifiers
/// with an equals sign bind values, a bare comma is skipped, a missing or
/// foreign value binds the null literal, and a closing parenthesis, either
/// sentinel, an opening bracket or the end of input closes the call.
pub open spec fn sp_fwk(
    ts: Seq<TokView>,
    i: int,
    name: Seq<char>,
    kwargs: Map<Seq<char>, ValueView>,
) -> ((Seq<char>, Map<Seq<char>, ValueView>), int)
    decreases ts.len() - i, 1int,
{
    if !(0 <= i) || i >= ts.len() {
        ((name, kwargs), i)
    } else {
        match ts[i] {
            TokView::PythonStart => ((name, kwargs), i + 1),
            TokView::PythonEnd => ((name, kwargs), i + 1),
            TokView::ParenClose => ((name, kwargs), i + 1),
            TokView::BracketOpen => ((name, kwargs), i + 1),
            TokView::Comma => sp_fwk(ts, i + 1, name, kwargs),
            TokView::Identifier(key) => {
                if i + 1 < ts.len() && ts[i + 1] is Equals {
                    if i + 2 < ts.len() {
                        match ts[i + 2] {
                            TokView::String(t) => sp_fwk_post(
                                ts,
                                i + 3,
                                name,
                                kwargs.insert(key, ValueView::String(t)),
                            ),
                            TokView::Bool(b) => sp_fwk_post(
                                ts,
                                i + 3,
                                name,
                                kwargs.insert(key, ValueView::Bool(b)),
                            ),
                            TokView::Number(t) => sp_fwk_post(
                                ts,
                                i + 3,
                                name,
                                kwargs.insert(key, ValueView::Number(t)),
                            ),
                            TokView::Identifier(t) => sp_fwk_post(
                                ts,
                                i + 3,
                                name,
                                kwargs.insert(key, ValueView::Identifier(t)),
                            ),
                            TokView::Comma => sp_fwk(
                                ts,
                                i + 3,
                                name,
                                kwargs.insert(key, ValueView::Empty),
                            ),
                            TokView::ParenClose => (
                                (name, kwargs.insert(key, ValueView::Empty)),
                                i + 3,
                            ),
                            _ => sp_fwk(ts, i + 3, name, kwargs.insert(key, ValueView::Empty)),
                        }
                    } else {
                        sp_fwk(ts, i + 2, name, kwargs.insert(key, ValueView::Empty))
                    }
                } else {
                    sp_fwk(
                        ts,
                        if i + 1 < ts.len() {
                            i + 2
                        } else {
                            i + 1
                        },
                        name,
                        kwargs,
                    )
                }
            },
            _ => sp_fwk(ts, i + 1, name, kwargs),
        }
    }
}

/// The step after a bound value: consult `sp_hpv`, then either close the
/// call or go on parsing arguments.
pub open spec fn sp_fwk_post(
    ts: Seq<TokView>,
    i: int,
    name: Seq<char>,
    kwargs: Map<Seq<char>, ValueView>,
) -> ((Seq<char>, Map<Seq<char>, ValueView>), int)
    decreases ts.len() - i, 2int,
{
    let h = sp_hpv(ts, i);
    if h.0 {
        ((name, kwargs), h.1)
    } else {
        if i <= h.1 <= ts.len() {
            sp_fwk(ts, h.1, name, kwargs)
        } else {
            ((name, kwargs), i)
        }
    }
}

/// One call from the token stream: an identifier immediately followed by an
/// opening parenthesis starts a call; anything else consumes one or two
/// tokens and yields nothing.
pub open spec fn sp_next_fn(ts: Seq<TokView>, i: int) -> (Option<CallView>, int)
    decreases ts.len() - i, 3int,
{
    if !(0 <= i) || i >= ts.len() {
        (None, i)
    } else {
        match ts[i] {
            TokView::Identifier(name) => {
                if i + 1 < ts.len() && ts[i + 1] is ParenOpen {
                    let r = sp_fwk(ts, i + 2, name, Map::empty());
                    (Some(CallView { name: r.0.0, kwargs: r.0.1 }), r.1)
                } else {
                    (
                        None,
                        if i + 1 < ts.len() {
                            i + 2
                        } else {
                            i + 1
                        },
                    )
                }
            },
            _ => (None, i + 1),
        }
    }
}

/// The comma-separated calls after the first one in a bracketed list: a
/// comma brings the next call, and a closing bracket, an end sentinel, the
/// end of input or any other token ends the list.
pub open spec fn sp_after_first(ts: Seq<TokView>, i: int, acc: Seq<CallView>) -> (
    Seq<CallView>,
    int,
)
    decreases ts.len() - i, 4int,
{
    if !(0 <= i) || i >= ts.len() {
        (acc, i)
    } else {
        match ts[i] {
            TokView::Comma => {
                let r = sp_next_fn(ts, i + 1);
                match r.0 {
                    Some(c) => if i < r.1 <= ts.len() {
                        sp_after_first(ts, r.1, acc.push(c))
                    } else {
                        (acc.push(c), r.1)
                    },
                    None => (acc, r.1),
                }
            },
            _ => (acc, i + 1),
        }
    }
}

/// The whole scan of the token stream: every opening bracket may start a
/// call list; everything between lists is skipped.
pub open spec fn sp_pnfc(ts: Seq<TokView>, i: int, acc: Seq<CallView>) -> Seq<CallView>
    decreases ts.len() - i, 5int,
{
    if !(0 <= i) || i >= ts.len() {
        acc
    } else {
        match ts[i] {
            TokView::BracketOpen => {
                let r = sp_next_fn(ts, i + 1);
                match r.0 {
                    Some(c) => if i < r.1 <= ts.len() {
                        let ar = sp_after_first(ts, r.1, acc.push(c));
                        if i < ar.1 <= ts.len() {
                            sp_pnfc(ts, ar.1, ar.0)
                        } else {
                            ar.0
                        }
                    } else {
                        acc.push(c)
                    },
                    None => if i < r.1 <= ts.len() {
                        sp_pnfc(ts, r.1, acc)
                    } else {
                        acc
                    },
                }
            },
            _ => sp_pnfc(ts, i + 1, acc),
        }
    }
}

/// What the token engine extracts from a text: the calls its scan finds in
/// the text's token stream.
pub open spec fn sp_token_parse(s: Seq<char>) -> Seq<CallView> {
    sp_pnfc(sp_lex(s, 0), 0, Seq::empty())
}

fn tok_is_equals(t: &Result<Token, LexError>) -> (b: bool)
    ensures
        b == (tok_view(*t) is Equals),
{
    match t {
        Ok(Token::Equals) => true,
        _ => false,
    }
}

fn tok_is_paren_open(t: &Result<Token, LexError>) -> (b: bool)
    ensures
        b == (tok_view(*t) is ParenOpen),
{
    match t {
        Ok(Token::ParenOpen) => true,
        _ => false,
    }
}

fn tok_is_paren_close(t: &Result<Token, LexError>) -> (b: bool)
    ensures
        b == (tok_view(*t) is ParenClose),
{
    match t {
        Ok(Token::ParenClose) => true,
        _ => false,
    }
}

/// After an argument's value: yields the finished call when the next token
/// closes the parentheses, else the null literal as the signal to go on,
/// with the next stream position.
pub fn handle_post_value(
    toks: &Vec<Result<Token, LexError>>,
    i: usize,
    name: String,
    kwargs: Vec<(String, Value)>,
) -> (r: (Value, usize))
    requires
        i <= toks@.len(),
        kwargs_wf(kwargs@),
        forall|t: int| 0 <= t < kwargs@.len() ==> (#[trigger] kwargs@[t]).1.wf(),
    ensures
        ({
            let h = sp_hpv(toks_view(toks@), i as int);
            &&& r.1 as int == h.1
            &&& h.0 ==> (r.0 matches Value::FunctionCall(c) && c@.name == name@ && c@.kwargs
                == kwargs_view(kwargs@) && c.wf())
            &&& !h.0 ==> r.0 == Value::Empty
        }),
{
    proof {
        lemma_toks_view_len(toks@);
    }
    if i < toks.len() {
        proof {
            lemma_toks_view_index(toks@, i as int);
        }
        if tok_is_paren_close(&toks[i]) {
            (Value::FunctionCall(FunctionCall { name: name, kwargs: kwargs }), i + 1)
        } else {
            (Value::Empty, i + 1)
        }
    } else {
        (Value::Empty, i)
    }
}

/// Keyword-argument parsing from inside a call's parentheses, carrying the
/// arguments bound so far.
fn fwk_go(
    toks: &Vec<Result<Token, LexError>>,
    i: usize,
    name: String,
    kw: Vec<(String, Value)>,
) -> (r: (FunctionCall, usize))
    requires
        i <= toks@.len(),
        kwargs_wf(kw@),
        forall|t: int| 0 <= t < kw@.len() ==> (#[trigger] kw@[t]).1.wf(),
    ensures
        ({
            let s = sp_fwk(toks_view(toks@), i as int, name@, kwargs_view(kw@));
            &&& r.0@.name == s.0.0
            &&& r.0@.kwargs == s.0.1
            &&& r.0.wf()
            &&& r.1 as int == s.1
            &&& i <= r.1 <= toks@.len()
        }),
    decreases toks@.len() - i, 0int,
{
    let ghost ts = toks_view(toks@);
    proof {
        lemma_toks_view_len(toks@);
    }
    let n: usize = toks.len();
    if i >= n {
        return (FunctionCall { name: name, kwargs: kw }, i);
    }
    proof {
        lemma_toks_view_index(toks@, i as int);
    }
    let item = &toks[i];
    match item {
        Ok(Token::PythonStart) => (FunctionCall { name: name, kwargs: kw }, i + 1),
        Ok(Token::PythonEnd) => (FunctionCall { name: name, kwargs: kw }, i + 1),
        Ok(Token::ParenClose) => (FunctionCall { name: name, kwargs: kw }, i + 1),
        Ok(Token::BracketOpen) => (FunctionCall { name: name, kwargs: kw }, i + 1),
        Ok(Token::Comma) => fwk_go(toks, i + 1, name, kw),
        Ok(Token::Identifier(keyr)) => {
            proof {
                if i + 1 < toks@.len() {
                    lemma_toks_view_index(toks@, i + 1);
                }
            }
            if i + 1 < n && tok_is_equals(&toks[i + 1]) {
                if i + 2 < n {
                    proof {
                        lemma_toks_view_index(toks@, i + 2);
                    }
                    let vitem = &toks[i + 2];
                    match vitem {
                        Ok(Token::String(t)) => {
                            let mut kw2 = kw;
                            kwargs_insert(&mut kw2, keyr.clone(), Value::String(t.clone()));
                            fwk_after_value(toks, i + 3, name, kw2)
                        },
                        Ok(Token::Bool(b)) => {
                            let mut kw2 = kw;
                            kwargs_insert(&mut kw2, keyr.clone(), Value::Bool(*b));
                            fwk_after_value(toks, i + 3, name, kw2)
                        },
                        Ok(Token::Number(t)) => {
                            let mut kw2 = kw;
                            kwargs_insert(&mut kw2, keyr.clone(), Value::Number(t.clone()));
                            fwk_after_value(toks, i + 3, name, kw2)
                        },
                        Ok(Token::Identifier(t)) => {
                            let mut kw2 = kw;
                            kwargs_insert(&mut kw2, keyr.clone(), Value::Identifier(t.clone()));
                            fwk_after_value(toks, i + 3, name, kw2)
                        },
                        Ok(Token::Comma) => {
                            let mut kw2 = kw;
                            kwargs_insert(&mut kw2, keyr.clone(), Value::Empty);
                            fwk_go(toks, i + 3, name, kw2)
                        },
                        Ok(Token::ParenClose) => {
                            let mut kw2 = kw;
                            kwargs_insert(&mut kw2, keyr.clone(), Value::Empty);
                            (FunctionCall { name: name, kwargs: kw2 }, i + 3)
                        },
                        _ => {
                            let mut kw2 = kw;
                            kwargs_insert(&mut kw2, keyr.clone(), Value::Empty);
                            fwk_go(toks, i + 3, name, kw2)
                        },
                    }
                } else {
                    let mut kw2 = kw;
                    kwargs_insert(&mut kw2, keyr.clone(), Value::Empty);
                    fwk_go(toks, i + 2, name, kw2)
                }
            } else {
                let nxt: usize = if i + 1 < n {
                    i + 2
                } else {
                    i + 1
                };
                fwk_go(toks, nxt, name, kw)
            }
        },
        _ => fwk_go(toks, i + 1, name, kw),
    }
}

/// The step after a bound value: close the call on a closing parenthesis,
/// else go on parsing arguments.
fn fwk_after_value(
    toks: &Vec<Result<Token, LexError>>,
    i: usize,
    name: String,
    kw: Vec<(String, Value)>,
) -> (r: (FunctionCall, usize))
    requires
        i <= toks@.len(),
        kwargs_wf(kw@),
        forall|t: int| 0 <= t < kw@.len() ==> (#[trigger] kw@[t]).1.wf(),
    ensures
        ({
            let s = sp_fwk_post(toks_view(toks@), i as int, name@, kwargs_view(kw@));
            &&& r.0@.name == s.0.0
            &&& r.0@.kwargs == s.0.1
            &&& r.0.wf()
            &&& r.1 as int == s.1
            &&& i <= r.1 <= toks@.len()
        }),
    decreases toks@.len() - i, 1int,
{
    proof {
        lemma_toks_view_len(toks@);
    }
    let n: usize = toks.len();
    if i < n {
        proof {
            lemma_toks_view_index(toks@, i as int);
        }
        if tok_is_paren_close(&toks[i]) {
            return (FunctionCall { name: name, kwargs: kw }, i + 1);
        }
        fwk_go(toks, i + 1, name, kw)
    } else {
        fwk_go(toks, i, name, kw)
    }
}

/// Keyword-argument parsing for a named call, starting from inside its
/// parentheses with no arguments bound yet.
pub fn parse_function_with_kwargs(
    toks: &Vec<Result<Token, LexError>>,
    i: usize,
    name: String,
) -> (r: (FunctionCall, usize))
    requires
        i <= toks@.len(),
    ensures
        ({
            let s = sp_fwk(toks_view(toks@), i as int, name@, Map::empty());
            &&& r.0@.name == s.0.0
            &&& r.0@.kwargs == s.0.1
            &&& r.0.wf()
            &&& r.1 as int == s.1
            &&& i <= r.1 <= toks@.len()
        }),
{
    let kw: Vec<(String, Value)> = Vec::new();
    proof {
        assert(kwargs_view(kw@) == Map::<Seq<char>, ValueView>::empty());
    }
    fwk_go(toks, i, name, kw)
}

/// One call from the token stream: an identifier immediately followed by an
/// opening parenthesis, else nothing.
fn parse_next_function_in_list(toks: &Vec<Result<Token, LexError>>, i: usize) -> (r: (
    Option<FunctionCall>,
    usize,
))
    requires
        i <= toks@.len(),
    ensures
        ({
            let s = sp_next_fn(toks_view(toks@), i as int);
            &&& (r.0 matches Some(c) ==> s.0 matches Some(cv) && c@ == cv && c.wf())
            &&& (r.0 is None ==> s.0 is None)
            &&& r.1 as int == s.1
            &&& i <= r.1 <= toks@.len()
        }),
{
    let ghost ts = toks_view(toks@);
    proof {
        lemma_toks_view_len(toks@);
    }
    let n: usize = toks.len();
    if i >= n {
        return (None, i);
    }
    proof {
        lemma_toks_view_index(toks@, i as int);
    }
    let item = &toks[i];
    match item {
        Ok(Token::Identifier(namer)) => {
            proof {
                if i + 1 < toks@.len() {
                    lemma_toks_view_index(toks@, i + 1);
                }
            }
            if i + 1 < n && tok_is_paren_open(&toks[i + 1]) {
                let (c, m) = parse_function_with_kwargs(toks, i + 2, namer.clone());
                proof {
                    assert(c@ == CallView { name: c@.name, kwargs: c@.kwargs });
                }
                (Some(c), m)
            } else {
                let nxt: usize = if i + 1 < n {
                    i + 2
                } else {
                    i + 1
                };
                (None, nxt)
            }
        },
        _ => (None, i + 1),
    }
}

/// The comma-separated calls after the first one in a bracketed list.
fn after_first_go(
    toks: &Vec<Result<Token, LexError>>,
    i: usize,
    acc: Vec<FunctionCall>,
) -> (r: (Vec<FunctionCall>, usize))
    requires
        i <= toks@.len(),
        calls_wf(acc@),
    ensures
        ({
            let s = sp_after_first(toks_view(toks@), i as int, calls_view(acc@));
            &&& calls_view(r.0@) == s.0
            &&& calls_wf(r.0@)
            &&& r.1 as int == s.1
            &&& i <= r.1 <= toks@.len()
        }),
    decreases toks@.len() - i,
{
    let ghost ts = toks_view(toks@);
    proof {
        lemma_toks_view_len(toks@);
    }
    let n: usize = toks.len();
    if i >= n {
        return (acc, i);
    }
    proof {
        lemma_toks_view_index(toks@, i as int);
    }
    let is_comma = match &toks[i] {
        Ok(Token::Comma) => true,
        _ => false,
    };
    if is_comma {
        let (copt, m) = parse_next_function_in_list(toks, i + 1);
        match copt {
            Some(c) => {
                let mut acc2 = acc;
                let ghost old_acc = acc2@;
                acc2.push(c);
                proof {
                    lemma_calls_view_push(old_acc, acc2@.last());
                }
                if m > i {
                    after_first_go(toks, m, acc2)
                } else {
                    (acc2, m)
                }
            },
            None => (acc, m),
        }
    } else {
        (acc, i + 1)
    }
}

/// The whole scan of the token stream for bracketed call lists.
fn pnfc_go(toks: &Vec<Result<Token, LexError>>, i: usize, acc: Vec<FunctionCall>) -> (r: Vec<
    FunctionCall,
>)
    requires
        i <= toks@.len(),
        calls_wf(acc@),
    ensures
        calls_view(r@) == sp_pnfc(toks_view(toks@), i as int, calls_view(acc@)),
        calls_wf(r@),
    decreases toks@.len() - i,
{
    let ghost ts = toks_view(toks@);
    proof {
        lemma_toks_view_len(toks@);
    }
    let n: usize = toks.len();
    if i >= n {
        return acc;
    }
    proof {
        lemma_toks_view_index(toks@, i as int);
    }
    let is_open = match &toks[i] {
        Ok(Token::BracketOpen) => true,
        _ => false,
    };
    if is_open {
        let (copt, m) = parse_next_function_in_list(toks, i + 1);
        match copt {
            Some(c) => {
                let mut acc2 = acc;
                let ghost old_acc = acc2@;
                acc2.push(c);
                proof {
                    lemma_calls_view_push(old_acc, acc2@.last());
                }
                if m > i {
                    let (acc3, m2) = after_first_go(toks, m, acc2);
                    if m2 > i {
                        pnfc_go(toks, m2, acc3)
                    } else {
                        acc3
                    }
                } else {
                    acc2
                }
            },
            None => {
                if m > i {
                    pnfc_go(toks, m, acc)
                } else {
                    acc
                }
            },
        }
    } else {
        pnfc_go(toks, i + 1, acc)
    }
}

/// The token engine's scan of a text: every function call found in any
/// bracketed call list, each as a `FunctionCall` value, in order.  The scan
/// is total: it never reports an error.
pub fn parse_nested_function_calls(source: &str) -> (r: Result<Vec<Value>, ParseError>)
    ensures
        r is Ok,
        r matches Ok(vals) ==> ({
            let cs = sp_token_parse(source@);
            &&& view_seq(vals@).len() == cs.len()
            &&& forall|t: int| 0 <= t < cs.len() ==> view_seq(vals@)[t]
                == ValueView::FunctionCall(cs[t])
            &&& forall|t: int| 0 <= t < vals@.len() ==> (#[trigger] vals@[t]).wf()
        }),
{
    let toks = tokenize(source);
    let acc: Vec<FunctionCall> = Vec::new();
    proof {
        assert(calls_view(acc@) == Seq::<CallView>::empty());
    }
    let calls = pnfc_go(&toks, 0, acc);
    let ghost cs = sp_token_parse(source@);
    proof {
        crate::value::lemma_calls_view_len(calls@);
    }
    let mut vals: Vec<Value> = Vec::new();
    let mut k: usize = 0;
    while k < calls.len()
        invariant
            k <= calls@.len(),
            cs == calls_view(calls@),
            cs.len() == calls@.len(),
            calls_wf(calls@),
            vals@.len() == k,
            forall|t: int| 0 <= t < k ==> view_seq(vals@)[t] == ValueView::FunctionCall(cs[t]),
            forall|t: int| 0 <= t < k ==> (#[trigger] vals@[t]).wf(),
        decreases calls@.len() - k,
    {
        let ghost old_vals = vals@;
        let c = crate::value::copy_call(&calls[k]);
        vals.push(Value::FunctionCall(c));
        proof {
            crate::value::lemma_view_seq_push(old_vals, vals@.last());
            lemma_view_variant(&vals@.last());
            crate::value::lemma_calls_view_index(calls@, k as int);
            assert forall|t: int| 0 <= t < k + 1 implies view_seq(vals@)[t]
                == ValueView::FunctionCall(cs[t]) by {
                crate::value::lemma_view_seq_len(old_vals);
                if t < k {
                    assert(view_seq(old_vals)[t] == ValueView::FunctionCall(cs[t]));
                }
            }
        }
        k = k + 1;
    }
    proof {
        crate::value::lemma_view_seq_len(vals@);
    }
    Ok(vals)
}

/// The token engine's entry point: the calls its scan finds in the text, in
/// order.  The scan is total: it never reports an error.
pub fn parse_python(source: &str) -> (r: Result<Vec<FunctionCall>, ParseError>)
    ensures
        r is Ok,
        r matches Ok(calls) ==> calls_view(calls@) == sp_token_parse(source@) && calls_wf(calls@),
{
    let ghost cs = sp_token_parse(source@);
    match parse_nested_function_calls(source) {
        Ok(vals) => {
            proof {
                crate::value::lemma_view_seq_len(vals@);
            }
            let mut out: Vec<FunctionCall> = Vec::new();
            let mut k: usize = 0;
            while k < vals.len()
                invariant
                    k <= vals@.len(),
                    vals@.len() == cs.len(),
                    view_seq(vals@).len() == cs.len(),
                    forall|t: int| 0 <= t < cs.len() ==> view_seq(vals@)[t]
                        == ValueView::FunctionCall(cs[t]),
                    forall|t: int| 0 <= t < vals@.len() ==> (#[trigger] vals@[t]).wf(),
                    out@.len() == k,
                    calls_wf(out@),
                    forall|t: int| 0 <= t < k ==> (#[trigger] calls_view(out@)[t]) == cs[t],
                    calls_view(out@).len() == k,
                decreases vals@.len() - k,
            {
                proof {
                    crate::value::lemma_view_seq_index(vals@, k as int);
                }
                match &vals[k] {
                    Value::FunctionCall(c) => {
                        let ghost old_out = out@;
                        let cc = crate::value::copy_call(c);
                        out.push(cc);
                        proof {
                            lemma_calls_view_push(old_out, out@.last());
                            crate::value::lemma_calls_view_len(old_out);
                            lemma_view_variant(&vals@[k as int]);
                        }
                    },
                    _ => {
                        proof {
                            lemma_view_variant(&vals@[k as int]);
                            assert(false);
                        }
                    },
                }
                k = k + 1;
            }
            proof {
                crate::value::lemma_calls_view_len(out@);
                assert(calls_view(out@) =~= cs);
            }
            Ok(out)
        },
        Err(e) => Err(e),
    }
}

} // verus!

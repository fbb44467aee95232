//! The executable recursive-descent parser, proved to return exactly what
//! the grammar in `grammar` denotes.

use vstd::prelude::*;

use crate::grammar::{
    end_marker, is_digit, is_ident_char, is_ident_start, is_space, lit_at, sp_call,
    sp_call_list, sp_call_list_first, sp_call_list_more, sp_dict_first, sp_dict_more,
    sp_dict_pair, sp_digits, sp_ident, sp_ident_end, sp_kwarg, sp_kwargs_first, sp_kwargs_more,
    sp_list_first, sp_list_more, sp_number, sp_str_end, sp_string, sp_top, sp_unescape, sp_value,
    sp_ws, start_marker,
};
use crate::text::{chars_of, string_from_chars};
use crate::value::{
    calls_view, calls_wf, kwargs_insert, kwargs_view, kwargs_wf, lemma_calls_view_push,
    lemma_view_seq_push, lemma_view_variant, view_seq, CallView, FunctionCall, Value, ValueView,
};

verus! {

broadcast use vstd::seq::group_seq_axioms, vstd::std_specs::vec::group_vec_axioms;

/// What went wrong in a strict parse.
#[derive(Debug, Clone, Copy, PartialEq, Eq, Structural)]
pub enum ErrorKind {
    /// A literal began well but is badly formed.
    MalformedLiteral,
    /// The expected construct does not stand at the position.
    UnexpectedToken,
    /// The input ended inside a bracketed or quoted construct.
    UnterminatedStructure,
    /// The engine selector names no known engine.
    UnsupportedEngine,
}

/// A strict-parse failure: its kind and the position it refers to.
#[derive(Debug, Clone, Copy, PartialEq, Eq, Structural)]
pub struct ParseError {
    pub kind: ErrorKind,
    pub pos: usize,
}

pub(crate) fn is_space_c(c: char) -> (b: bool)
    ensures
        b == is_space(c),
{
    c == ' ' || c == '\t' || c == '\r' || c == '\n'
}

pub(crate) fn is_digit_c(c: char) -> (b: bool)
    ensures
        b == is_digit(c),
{
    let u: u32 = c as u32;
    48 <= u && u <= 57
}

pub(crate) fn is_ident_start_c(c: char) -> (b: bool)
    ensures
        b == is_ident_start(c),
{
    let u: u32 = c as u32;
    (97 <= u && u <= 122) || (65 <= u && u <= 90) || c == '_'
}

pub(crate) fn is_ident_char_c(c: char) -> (b: bool)
    ensures
        b == is_ident_char(c),
{
    is_ident_start_c(c) || is_digit_c(c)
}

/// First position at or after `i` not holding whitespace.
pub(crate) fn skip_ws(v: &Vec<char>, i: usize) -> (r: usize)
    requires
        i <= v@.len(),
    ensures
        r as int == sp_ws(v@, i as int),
        i <= r <= v@.len(),
{
    let mut j: usize = i;
    while j < v.len() && is_space_c(v[j])
        invariant
            i <= j <= v@.len(),
            sp_ws(v@, i as int) == sp_ws(v@, j as int),
        decreases v@.len() - j,
    {
        proof {
            assert(sp_ws(v@, j as int) == sp_ws(v@, j + 1));
        }
        j = j + 1;
    }
    proof {
        assert(sp_ws(v@, j as int) == j as int);
    }
    j
}

/// First position at or after `i` not holding a digit.
pub(crate) fn scan_digits(v: &Vec<char>, i: usize) -> (r: usize)
    requires
        i <= v@.len(),
    ensures
        r as int == sp_digits(v@, i as int),
        i <= r <= v@.len(),
{
    let mut j: usize = i;
    while j < v.len() && is_digit_c(v[j])
        invariant
            i <= j <= v@.len(),
            sp_digits(v@, i as int) == sp_digits(v@, j as int),
        decreases v@.len() - j,
    {
        proof {
            assert(sp_digits(v@, j as int) == sp_digits(v@, j + 1));
        }
        j = j + 1;
    }
    proof {
        assert(sp_digits(v@, j as int) == j as int);
    }
    j
}

/// First position at or after `i` not holding an identifier character.
pub(crate) fn scan_ident_end(v: &Vec<char>, i: usize) -> (r: usize)
    requires
        i <= v@.len(),
    ensures
        r as int == sp_ident_end(v@, i as int),
        i <= r <= v@.len(),
{
    let mut j: usize = i;
    while j < v.len() && is_ident_char_c(v[j])
        invariant
            i <= j <= v@.len(),
            sp_ident_end(v@, i as int) == sp_ident_end(v@, j as int),
        decreases v@.len() - j,
    {
        proof {
            assert(sp_ident_end(v@, j as int) == sp_ident_end(v@, j + 1));
        }
        j = j + 1;
    }
    proof {
        assert(sp_ident_end(v@, j as int) == j as int);
    }
    j
}

/// The characters of `v` from `lo` to `hi`, copied out.
pub(crate) fn chars_range(v: &Vec<char>, lo: usize, hi: usize) -> (r: Vec<char>)
    requires
        lo <= hi <= v@.len(),
    ensures
        r@ == v@.subrange(lo as int, hi as int),
{
    let mut out: Vec<char> = Vec::new();
    let mut j: usize = lo;
    while j < hi
        invariant
            lo <= j <= hi <= v@.len(),
            out@ =~= v@.subrange(lo as int, j as int),
        decreases hi - j,
    {
        out.push(v[j]);
        j = j + 1;
        proof {
            assert(out@ =~= v@.subrange(lo as int, j as int));
        }
    }
    proof {
        assert(out@ =~= v@.subrange(lo as int, hi as int));
    }
    out
}

/// The literal stands at position `j` of `v`.
pub(crate) fn lit_match(v: &Vec<char>, j: usize, lit: &Vec<char>) -> (b: bool)
    requires
        j <= v@.len(),
    ensures
        b == lit_at(v@, j as int, lit@),
{
    if v.len() - j < lit.len() {
        return false;
    }
    let mut k: usize = 0;
    let mut t: usize = j;
    while k < lit.len()
        invariant
            k <= lit@.len(),
            t == j + k,
            v@.len() == v.len(),
            j + lit@.len() <= v@.len(),
            forall|x: int| 0 <= x < k ==> v@[j + x] == lit@[x],
        decreases lit@.len() - k,
    {
        if v[t] != lit[k] {
            proof {
                let sub = v@.subrange(j as int, j + lit@.len());
                assert(sub[k as int] == v@[j + k]);
                assert(sub != lit@);
            }
            return false;
        }
        k = k + 1;
        t = t + 1;
    }
    proof {
        assert(v@.subrange(j as int, j + lit@.len()) =~= lit@);
    }
    true
}

fn lit_true() -> (r: Vec<char>)
    ensures
        r@ == seq!['T', 'r', 'u', 'e'],
{
    let mut r: Vec<char> = Vec::new();
    r.push('T');
    r.push('r');
    r.push('u');
    r.push('e');
    proof {
        assert(r@ =~= seq!['T', 'r', 'u', 'e']);
    }
    r
}

fn lit_false() -> (r: Vec<char>)
    ensures
        r@ == seq!['F', 'a', 'l', 's', 'e'],
{
    let mut r: Vec<char> = Vec::new();
    r.push('F');
    r.push('a');
    r.push('l');
    r.push('s');
    r.push('e');
    proof {
        assert(r@ =~= seq!['F', 'a', 'l', 's', 'e']);
    }
    r
}

fn lit_none() -> (r: Vec<char>)
    ensures
        r@ == seq!['N', 'o', 'n', 'e'],
{
    let mut r: Vec<char> = Vec::new();
    r.push('N');
    r.push('o');
    r.push('n');
    r.push('e');
    proof {
        assert(r@ =~= seq!['N', 'o', 'n', 'e']);
    }
    r
}

/// Resolution of the escapes in `v` between `lo` and `hi`.
fn unescape_range(v: &Vec<char>, lo: usize, hi: usize) -> (r: Vec<char>)
    requires
        lo <= hi <= v@.len(),
    ensures
        r@ == sp_unescape(v@.subrange(lo as int, hi as int)),
{
    let mut out: Vec<char> = Vec::new();
    let mut j: usize = lo;
    while j < hi
        invariant
            lo <= j <= hi <= v@.len(),
            sp_unescape(v@.subrange(lo as int, hi as int)) == out@ + sp_unescape(
                v@.subrange(j as int, hi as int),
            ),
        decreases hi - j,
    {
        let ghost pre = out@;
        let ghost tail = v@.subrange(j as int, hi as int);
        let c: char = v[j];
        proof {
            assert(tail[0] == c);
        }
        if c == '\\' {
            if j + 1 < hi {
                let e: char = v[j + 1];
                let mapped: char = if e == 'n' {
                    '\n'
                } else if e == 'r' {
                    '\r'
                } else if e == 't' {
                    '\t'
                } else {
                    e
                };
                out.push(mapped);
                j = j + 2;
                proof {
                    assert(tail[1] == e);
                    assert(tail.subrange(2, tail.len() as int) =~= v@.subrange(j as int, hi as int));
                    assert(sp_unescape(tail) == seq![mapped] + sp_unescape(
                        v@.subrange(j as int, hi as int),
                    ));
                    assert(out@ =~= pre + seq![mapped]);
                    assert(pre + (seq![mapped] + sp_unescape(v@.subrange(j as int, hi as int)))
                        =~= (pre + seq![mapped]) + sp_unescape(v@.subrange(j as int, hi as int)));
                }
            } else {
                out.push('\\');
                j = j + 1;
                proof {
                    assert(tail.len() == 1);
                    assert(sp_unescape(tail) == seq!['\\']);
                    assert(v@.subrange(j as int, hi as int).len() == 0);
                    assert(sp_unescape(v@.subrange(j as int, hi as int)) == Seq::<char>::empty());
                    assert(out@ =~= pre + seq!['\\']);
                    assert(pre + sp_unescape(tail) =~= out@ + Seq::<char>::empty());
                    assert(out@ + Seq::<char>::empty() =~= out@);
                    assert(out@ + sp_unescape(v@.subrange(j as int, hi as int)) =~= out@);
                }
            }
        } else {
            out.push(c);
            j = j + 1;
            proof {
                assert(tail.subrange(1, tail.len() as int) =~= v@.subrange(j as int, hi as int));
                assert(sp_unescape(tail) == seq![c] + sp_unescape(
                    v@.subrange(j as int, hi as int),
                ));
                assert(out@ =~= pre + seq![c]);
                assert(pre + (seq![c] + sp_unescape(v@.subrange(j as int, hi as int)))
                    =~= (pre + seq![c]) + sp_unescape(v@.subrange(j as int, hi as int)));
            }
        }
    }
    proof {
        assert(v@.subrange(j as int, hi as int).len() == 0);
        assert(sp_unescape(v@.subrange(j as int, hi as int)) == Seq::<char>::empty());
        assert(out@ + Seq::<char>::empty() =~= out@);
    }
    out
}

/// Resolution of a string body's escapes: backslash pairs keep the escaped
/// quote or backslash, `n`, `r` and `t` become their control characters, any
/// other escaped character is kept as itself, and a trailing lone backslash
/// stays a backslash.
pub fn unescape_string(s: &str) -> (r: String)
    ensures
        r@ == sp_unescape(s@),
{
    let v = chars_of(s);
    let n: usize = v.len();
    let body = unescape_range(&v, 0, n);
    proof {
        assert(v@.subrange(0, v@.len() as int) =~= v@);
    }
    string_from_chars(&body)
}

/// Position of the closing quote of a string body starting at `i`.
fn find_str_end(v: &Vec<char>, i: usize, q: char) -> (r: Option<usize>)
    requires
        i <= v@.len(),
    ensures
        match r {
            Some(e) => sp_str_end(v@, i as int, q) == Some(e as int) && i <= e < v@.len(),
            None => sp_str_end(v@, i as int, q) is None,
        },
{
    let mut j: usize = i;
    while j < v.len()
        invariant
            i <= j <= v@.len(),
            sp_str_end(v@, i as int, q) == sp_str_end(v@, j as int, q),
        decreases v@.len() - j,
    {
        let c: char = v[j];
        if c == q {
            return Some(j);
        } else if c == '\\' {
            if j + 1 < v.len() {
                proof {
                    assert(sp_str_end(v@, j as int, q) == sp_str_end(v@, j + 2, q));
                }
                j = j + 2;
            } else {
                proof {
                    assert(sp_str_end(v@, j as int, q) is None);
                }
                return None;
            }
        } else {
            proof {
                assert(sp_str_end(v@, j as int, q) == sp_str_end(v@, j + 1, q));
            }
            j = j + 1;
        }
    }
    proof {
        assert(sp_str_end(v@, j as int, q) is None);
    }
    None
}

/// A quoted string at exactly position `i`: the unescaped body and the
/// position past the closing quote.
pub fn parse_string(v: &Vec<char>, i: usize) -> (r: Option<(String, usize)>)
    requires
        i <= v@.len(),
    ensures
        match r {
            Some((t, m)) => sp_string(v@, i as int) == Some((t@, m as int)) && i < m <= v@.len(),
            None => sp_string(v@, i as int) is None,
        },
{
    if i < v.len() && (v[i] == '"' || v[i] == '\'') {
        let q: char = v[i];
        match find_str_end(v, i + 1, q) {
            Some(e) => {
                let body = unescape_range(v, i + 1, e);
                let t = string_from_chars(&body);
                Some((t, e + 1))
            },
            None => None,
        }
    } else {
        None
    }
}

/// A numeric literal at exactly position `i`: its text and the position past
/// it.
pub fn parse_number(v: &Vec<char>, i: usize) -> (r: Option<(String, usize)>)
    requires
        i <= v@.len(),
    ensures
        match r {
            Some((t, m)) => sp_number(v@, i as int) == Some((t@, m as int)) && i < m <= v@.len(),
            None => sp_number(v@, i as int) is None,
        },
{
    let i1: usize = if i < v.len() && v[i] == '-' {
        i + 1
    } else {
        i
    };
    let i2: usize = scan_digits(v, i1);
    if i2 == i1 {
        return None;
    }
    let i3: usize = if i2 < v.len() && v[i2] == '.' {
        let d: usize = scan_digits(v, i2 + 1);
        if d > i2 + 1 {
            d
        } else {
            i2
        }
    } else {
        i2
    };
    let i4: usize = if i3 < v.len() && (v[i3] == 'e' || v[i3] == 'E') {
        let isig: usize = if i3 + 1 < v.len() && (v[i3 + 1] == '+' || v[i3 + 1] == '-') {
            i3 + 2
        } else {
            i3 + 1
        };
        if isig <= v.len() {
            let d: usize = scan_digits(v, isig);
            if d > isig {
                d
            } else {
                i3
            }
        } else {
            i3
        }
    } else {
        i3
    };
    let text = chars_range(v, i, i4);
    let t = string_from_chars(&text);
    Some((t, i4))
}

/// An identifier at exactly position `i`: its text and the position past it.
pub fn parse_identifier(v: &Vec<char>, i: usize) -> (r: Option<(String, usize)>)
    requires
        i <= v@.len(),
    ensures
        match r {
            Some((t, m)) => sp_ident(v@, i as int) == Some((t@, m as int)) && i < m <= v@.len(),
            None => sp_ident(v@, i as int) is None,
        },
{
    if i < v.len() && is_ident_start_c(v[i]) {
        let e: usize = scan_ident_end(v, i + 1);
        let text = chars_range(v, i, e);
        let t = string_from_chars(&text);
        Some((t, e))
    } else {
        None
    }
}

pub(crate) fn lit_start_marker() -> (r: Vec<char>)
    ensures
        r@ == start_marker(),
{
    let mut r: Vec<char> = Vec::new();
    r.push('<');
    r.push('|');
    r.push('p');
    r.push('y');
    r.push('t');
    r.push('h');
    r.push('o');
    r.push('n');
    r.push('_');
    r.push('s');
    r.push('t');
    r.push('a');
    r.push('r');
    r.push('t');
    r.push('|');
    r.push('>');
    proof {
        assert(r@ =~= start_marker());
    }
    r
}

fn lit_end_marker() -> (r: Vec<char>)
    ensures
        r@ == end_marker(),
{
    let mut r: Vec<char> = Vec::new();
    r.push('<');
    r.push('|');
    r.push('p');
    r.push('y');
    r.push('t');
    r.push('h');
    r.push('o');
    r.push('n');
    r.push('_');
    r.push('e');
    r.push('n');
    r.push('d');
    r.push('|');
    r.push('>');
    proof {
        assert(r@ =~= end_marker());
    }
    r
}

/// A literal value at position `i`, leading whitespace skipped: booleans,
/// strings, numbers, the null literal, lists, dicts, identifiers, in that
/// order.
pub fn parse_value(v: &Vec<char>, i: usize) -> (r: Option<(Value, usize)>)
    requires
        i <= v@.len(),
    ensures
        match r {
            Some((val, m)) => sp_value(v@, i as int) == Some((val@, m as int)) && val.wf() && i
                < m <= v@.len(),
            None => sp_value(v@, i as int) is None,
        },
    decreases v@.len() - i, 0int,
{
    let n: usize = v.len();
    let j: usize = skip_ws(v, i);
    let tl = lit_true();
    if lit_match(v, j, &tl) {
        let val = Value::Bool(true);
        proof {
            lemma_view_variant(&val);
        }
        return Some((val, j + 4));
    }
    let fl = lit_false();
    if lit_match(v, j, &fl) {
        let val = Value::Bool(false);
        proof {
            lemma_view_variant(&val);
        }
        return Some((val, j + 5));
    }
    if j < n && (v[j] == '"' || v[j] == '\'') {
        return match parse_string(v, j) {
            Some((t, m)) => {
                let val = Value::String(t);
                proof {
                    lemma_view_variant(&val);
                }
                Some((val, m))
            },
            None => None,
        };
    }
    match parse_number(v, j) {
        Some((t, m)) => {
            let val = Value::Number(t);
            proof {
                lemma_view_variant(&val);
            }
            Some((val, m))
        },
        None => {
            let nl = lit_none();
            if lit_match(v, j, &nl) {
                let val = Value::Empty;
                proof {
                    lemma_view_variant(&val);
                }
                Some((val, j + 4))
            } else if j < n && v[j] == '[' {
                parse_list_first(v, j + 1)
            } else if j < n && v[j] == '{' {
                parse_dict_first(v, j + 1)
            } else {
                match parse_identifier(v, j) {
                    Some((t, m)) => {
                        let val = Value::Identifier(t);
                        proof {
                            lemma_view_variant(&val);
                        }
                        Some((val, m))
                    },
                    None => None,
                }
            }
        },
    }
}

/// The inside of a list, just past the opening bracket.
fn parse_list_first(v: &Vec<char>, i: usize) -> (r: Option<(Value, usize)>)
    requires
        i <= v@.len(),
    ensures
        match r {
            Some((val, m)) => sp_list_first(v@, i as int) == Some((val@, m as int)) && val.wf()
                && i < m <= v@.len(),
            None => sp_list_first(v@, i as int) is None,
        },
    decreases v@.len() - i, 1int,
{
    let n: usize = v.len();
    match parse_value(v, i) {
        Some((first, m)) => {
            let mut acc: Vec<Value> = Vec::new();
            acc.push(first);
            proof {
                crate::value::lemma_view_seq_len(acc@);
                crate::value::lemma_view_seq_index(acc@, 0);
                assert(view_seq(acc@) =~= seq![acc@[0]@]);
            }
            parse_list_more(v, m, acc)
        },
        None => {
            let k: usize = skip_ws(v, i);
            if k < n && v[k] == ']' {
                let val = Value::List(Vec::new());
                proof {
                    lemma_view_variant(&val);
                    assert(val matches Value::List(l) && l@.len() == 0);
                    assert(view_seq(Seq::<Value>::empty()) =~= Seq::<ValueView>::empty());
                }
                Some((val, k + 1))
            } else {
                None
            }
        },
    }
}

/// The inside of a list after an element: a comma and another element, or
/// the closing bracket.
fn parse_list_more(v: &Vec<char>, i: usize, acc: Vec<Value>) -> (r: Option<(Value, usize)>)
    requires
        i <= v@.len(),
        forall|t: int| 0 <= t < acc@.len() ==> (#[trigger] acc@[t]).wf(),
    ensures
        match r {
            Some((val, m)) => sp_list_more(v@, i as int, view_seq(acc@)) == Some(
                (val@, m as int),
            ) && val.wf() && i < m <= v@.len(),
            None => sp_list_more(v@, i as int, view_seq(acc@)) is None,
        },
    decreases v@.len() - i, 1int,
{
    let n: usize = v.len();
    let k: usize = skip_ws(v, i);
    if k < n && v[k] == ',' {
        match parse_value(v, k + 1) {
            Some((val, m)) => {
                let mut acc2 = acc;
                let ghost old_acc = acc2@;
                acc2.push(val);
                proof {
                    lemma_view_seq_push(old_acc, acc2@.last());
                    assert(view_seq(acc2@) == view_seq(old_acc).push(acc2@.last()@));
                }
                parse_list_more(v, m, acc2)
            },
            None => None,
        }
    } else if k < n && v[k] == ']' {
        let val = Value::List(acc);
        proof {
            lemma_view_variant(&val);
        }
        Some((val, k + 1))
    } else {
        None
    }
}

/// One dict entry: a quoted string key, a colon, a value.
fn parse_dict_pair(v: &Vec<char>, i: usize) -> (r: Option<((String, Value), usize)>)
    requires
        i <= v@.len(),
    ensures
        match r {
            Some(((key, val), m)) => sp_dict_pair(v@, i as int) == Some(
                ((key@, val@), m as int),
            ) && val.wf() && i < m <= v@.len(),
            None => sp_dict_pair(v@, i as int) is None,
        },
    decreases v@.len() - i, 1int,
{
    let n: usize = v.len();
    let j: usize = skip_ws(v, i);
    match parse_string(v, j) {
        Some((key, m1)) => {
            let c: usize = skip_ws(v, m1);
            if c < n && v[c] == ':' {
                match parse_value(v, c + 1) {
                    Some((val, m2)) => Some(((key, val), m2)),
                    None => None,
                }
            } else {
                None
            }
        },
        None => None,
    }
}

/// The inside of a dict, just past the opening brace; the entries flatten
/// into a list of alternating keys and values.
fn parse_dict_first(v: &Vec<char>, i: usize) -> (r: Option<(Value, usize)>)
    requires
        i <= v@.len(),
    ensures
        match r {
            Some((val, m)) => sp_dict_first(v@, i as int) == Some((val@, m as int)) && val.wf()
                && i < m <= v@.len(),
            None => sp_dict_first(v@, i as int) is None,
        },
    decreases v@.len() - i, 2int,
{
    let n: usize = v.len();
    match parse_dict_pair(v, i) {
        Some(((key, val), m)) => {
            let mut acc: Vec<Value> = Vec::new();
            acc.push(Value::String(key));
            acc.push(val);
            proof {
                lemma_view_variant(&acc@[0]);
                crate::value::lemma_view_seq_len(acc@);
                crate::value::lemma_view_seq_index(acc@, 0);
                crate::value::lemma_view_seq_index(acc@, 1);
                assert(view_seq(acc@) =~= seq![acc@[0]@, acc@[1]@]);
            }
            parse_dict_more(v, m, acc)
        },
        None => {
            let k: usize = skip_ws(v, i);
            if k < n && v[k] == '}' {
                let val = Value::List(Vec::new());
                proof {
                    lemma_view_variant(&val);
                    assert(view_seq(Seq::<Value>::empty()) =~= Seq::<ValueView>::empty());
                }
                Some((val, k + 1))
            } else {
                None
            }
        },
    }
}

/// The inside of a dict after an entry: a comma and another entry, or the
/// closing brace.
fn parse_dict_more(v: &Vec<char>, i: usize, acc: Vec<Value>) -> (r: Option<(Value, usize)>)
    requires
        i <= v@.len(),
        forall|t: int| 0 <= t < acc@.len() ==> (#[trigger] acc@[t]).wf(),
    ensures
        match r {
            Some((val, m)) => sp_dict_more(v@, i as int, view_seq(acc@)) == Some(
                (val@, m as int),
            ) && val.wf() && i < m <= v@.len(),
            None => sp_dict_more(v@, i as int, view_seq(acc@)) is None,
        },
    decreases v@.len() - i, 2int,
{
    let n: usize = v.len();
    let k: usize = skip_ws(v, i);
    if k < n && v[k] == ',' {
        match parse_dict_pair(v, k + 1) {
            Some(((key, val), m)) => {
                let mut acc2 = acc;
                let ghost old_acc = acc2@;
                acc2.push(Value::String(key));
                proof {
                    lemma_view_seq_push(old_acc, acc2@.last());
                    lemma_view_variant(&acc2@.last());
                }
                let ghost mid_acc = acc2@;
                acc2.push(val);
                proof {
                    lemma_view_seq_push(mid_acc, acc2@.last());
                    assert(view_seq(acc2@) =~= view_seq(old_acc) + seq![
                        ValueView::String(key@),
                        val@,
                    ]);
                }
                parse_dict_more(v, m, acc2)
            },
            None => None,
        }
    } else if k < n && v[k] == '}' {
        let val = Value::List(acc);
        proof {
            lemma_view_variant(&val);
        }
        Some((val, k + 1))
    } else {
        None
    }
}

/// One keyword argument: an identifier, an equals sign, a value.
pub fn parse_kwarg(v: &Vec<char>, i: usize) -> (r: Option<((String, Value), usize)>)
    requires
        i <= v@.len(),
    ensures
        match r {
            Some(((key, val), m)) => sp_kwarg(v@, i as int) == Some(((key@, val@), m as int))
                && val.wf() && i < m <= v@.len(),
            None => sp_kwarg(v@, i as int) is None,
        },
    decreases v@.len() - i, 1int,
{
    let n: usize = v.len();
    let j: usize = skip_ws(v, i);
    match parse_identifier(v, j) {
        Some((key, m1)) => {
            let e: usize = skip_ws(v, m1);
            if e < n && v[e] == '=' {
                match parse_value(v, e + 1) {
                    Some((val, m2)) => Some(((key, val), m2)),
                    None => None,
                }
            } else {
                None
            }
        },
        None => None,
    }
}

/// The inside of an argument list, just past the opening parenthesis.
pub fn parse_kwargs(v: &Vec<char>, i: usize) -> (r: Option<(Vec<(String, Value)>, usize)>)
    requires
        i <= v@.len(),
    ensures
        match r {
            Some((kw, m)) => sp_kwargs_first(v@, i as int) == Some(
                (kwargs_view(kw@), m as int),
            ) && kwargs_wf(kw@) && (forall|t: int|
                0 <= t < kw@.len() ==> (#[trigger] kw@[t]).1.wf()) && i < m <= v@.len(),
            None => sp_kwargs_first(v@, i as int) is None,
        },
    decreases v@.len() - i, 2int,
{
    let n: usize = v.len();
    match parse_kwarg(v, i) {
        Some(((key, val), m)) => {
            let mut kw: Vec<(String, Value)> = Vec::new();
            proof {
                assert(kwargs_view(kw@) == Map::<Seq<char>, ValueView>::empty());
            }
            kwargs_insert(&mut kw, key, val);
            parse_kwargs_more(v, m, kw)
        },
        None => {
            let k: usize = skip_ws(v, i);
            if k < n && v[k] == ')' {
                let kw: Vec<(String, Value)> = Vec::new();
                proof {
                    assert(kwargs_view(kw@) == Map::<Seq<char>, ValueView>::empty());
                }
                Some((kw, k + 1))
            } else {
                None
            }
        },
    }
}

/// The inside of an argument list after an argument: a comma and another
/// argument, or the closing parenthesis.
fn parse_kwargs_more(v: &Vec<char>, i: usize, kw: Vec<(String, Value)>) -> (r: Option<
    (Vec<(String, Value)>, usize),
>)
    requires
        i <= v@.len(),
        kwargs_wf(kw@),
        forall|t: int| 0 <= t < kw@.len() ==> (#[trigger] kw@[t]).1.wf(),
    ensures
        match r {
            Some((kw2, m)) => sp_kwargs_more(v@, i as int, kwargs_view(kw@)) == Some(
                (kwargs_view(kw2@), m as int),
            ) && kwargs_wf(kw2@) && (forall|t: int|
                0 <= t < kw2@.len() ==> (#[trigger] kw2@[t]).1.wf()) && i < m <= v@.len(),
            None => sp_kwargs_more(v@, i as int, kwargs_view(kw@)) is None,
        },
    decreases v@.len() - i, 2int,
{
    let n: usize = v.len();
    let k: usize = skip_ws(v, i);
    if k < n && v[k] == ',' {
        match parse_kwarg(v, k + 1) {
            Some(((key, val), m)) => {
                let mut kw2 = kw;
                kwargs_insert(&mut kw2, key, val);
                parse_kwargs_more(v, m, kw2)
            },
            None => None,
        }
    } else if k < n && v[k] == ')' {
        Some((kw, k + 1))
    } else {
        None
    }
}

/// A function call: an identifier immediately followed by a parenthesised
/// argument list.
pub fn parse_function_call(v: &Vec<char>, i: usize) -> (r: Option<(FunctionCall, usize)>)
    requires
        i <= v@.len(),
    ensures
        match r {
            Some((c, m)) => sp_call(v@, i as int) == Some((c@, m as int)) && c.wf() && i < m
                <= v@.len(),
            None => sp_call(v@, i as int) is None,
        },
    decreases v@.len() - i, 3int,
{
    let n: usize = v.len();
    match parse_identifier(v, i) {
        Some((name, m1)) => {
            if m1 < n && v[m1] == '(' {
                match parse_kwargs(v, m1 + 1) {
                    Some((kw, m2)) => {
                        let c = FunctionCall { name: name, kwargs: kw };
                        proof {
                            assert(c@ == CallView { name: c.name@, kwargs: kwargs_view(c.kwargs@) });
                        }
                        Some((c, m2))
                    },
                    None => None,
                }
            } else {
                None
            }
        },
        None => None,
    }
}

/// The inside of a call list, just past the opening bracket.
fn parse_call_list_first(v: &Vec<char>, i: usize) -> (r: Option<(Vec<FunctionCall>, usize)>)
    requires
        i <= v@.len(),
    ensures
        match r {
            Some((cs, m)) => sp_call_list_first(v@, i as int) == Some(
                (calls_view(cs@), m as int),
            ) && calls_wf(cs@) && i < m <= v@.len(),
            None => sp_call_list_first(v@, i as int) is None,
        },
    decreases v@.len() - i, 4int,
{
    let n: usize = v.len();
    let j: usize = skip_ws(v, i);
    match parse_function_call(v, j) {
        Some((c, m)) => {
            let mut acc: Vec<FunctionCall> = Vec::new();
            acc.push(c);
            proof {
                crate::value::lemma_calls_view_len(acc@);
                crate::value::lemma_calls_view_index(acc@, 0);
                assert(calls_view(acc@) =~= seq![acc@[0]@]);
            }
            parse_call_list_more(v, m, acc)
        },
        None => {
            if j < n && v[j] == ']' {
                let acc: Vec<FunctionCall> = Vec::new();
                proof {
                    assert(calls_view(acc@) == Seq::<CallView>::empty());
                }
                Some((acc, j + 1))
            } else {
                None
            }
        },
    }
}

/// The inside of a call list after a call: a comma and another call, or the
/// closing bracket.
fn parse_call_list_more(v: &Vec<char>, i: usize, acc: Vec<FunctionCall>) -> (r: Option<
    (Vec<FunctionCall>, usize),
>)
    requires
        i <= v@.len(),
        calls_wf(acc@),
    ensures
        match r {
            Some((cs, m)) => sp_call_list_more(v@, i as int, calls_view(acc@)) == Some(
                (calls_view(cs@), m as int),
            ) && calls_wf(cs@) && i < m <= v@.len(),
            None => sp_call_list_more(v@, i as int, calls_view(acc@)) is None,
        },
    decreases v@.len() - i, 4int,
{
    let n: usize = v.len();
    let k: usize = skip_ws(v, i);
    if k < n && v[k] == ',' {
        let j: usize = skip_ws(v, k + 1);
        match parse_function_call(v, j) {
            Some((c, m)) => {
                let mut acc2 = acc;
                let ghost old_acc = acc2@;
                acc2.push(c);
                proof {
                    lemma_calls_view_push(old_acc, acc2@.last());
                }
                parse_call_list_more(v, m, acc2)
            },
            None => None,
        }
    } else if k < n && v[k] == ']' {
        Some((acc, k + 1))
    } else {
        None
    }
}

/// A bracketed call list at exactly position `i`.
fn parse_call_list(v: &Vec<char>, i: usize) -> (r: Option<(Vec<FunctionCall>, usize)>)
    requires
        i <= v@.len(),
    ensures
        match r {
            Some((cs, m)) => sp_call_list(v@, i as int) == Some((calls_view(cs@), m as int))
                && calls_wf(cs@) && i < m <= v@.len(),
            None => sp_call_list(v@, i as int) is None,
        },
    decreases v@.len() - i, 5int,
{
    let n: usize = v.len();
    if i < n && v[i] == '[' {
        parse_call_list_first(v, i + 1)
    } else {
        None
    }
}

/// The top-level parse at position `i`: the sentinel-wrapped form first, a
/// bare call list second.
pub fn top_parse(v: &Vec<char>, i: usize) -> (r: Option<(Vec<FunctionCall>, usize)>)
    requires
        i <= v@.len(),
    ensures
        match r {
            Some((cs, m)) => sp_top(v@, i as int) == Some((calls_view(cs@), m as int))
                && calls_wf(cs@) && i < m <= v@.len(),
            None => sp_top(v@, i as int) is None,
        },
    decreases v@.len() - i, 6int,
{
    let n: usize = v.len();
    let sm = lit_start_marker();
    if lit_match(v, i, &sm) {
        match parse_call_list(v, i + 16) {
            Some((calls, m)) => {
                let em = lit_end_marker();
                if lit_match(v, m, &em) {
                    return Some((calls, m + 14));
                }
            },
            None => {},
        }
    }
    parse_call_list(v, i)
}

/// A best-effort account of why a strict parse failed: a numeric literal
/// with a minus not followed by a digit is malformed; otherwise an input
/// that never opened a candidate fails at its start, and one that opened a
/// candidate is taken as truncated.
fn diagnose(v: &Vec<char>) -> (e: ParseError)
    ensures
        e.pos <= v@.len(),
        e.kind != ErrorKind::UnsupportedEngine,
{
    let n: usize = v.len();
    if n == 0 {
        return ParseError { kind: ErrorKind::UnexpectedToken, pos: 0 };
    }
    if v[0] != '[' && v[0] != '<' {
        return ParseError { kind: ErrorKind::UnexpectedToken, pos: 0 };
    }
    let mut p: usize = 0;
    while p < n
        invariant
            p <= n,
            n == v@.len(),
        decreases n - p,
    {
        if v[p] == '-' && !(p + 1 < n && is_digit_c(v[p + 1])) {
            return ParseError { kind: ErrorKind::MalformedLiteral, pos: p };
        }
        p = p + 1;
    }
    ParseError { kind: ErrorKind::UnterminatedStructure, pos: n }
}

/// The strict top-level parser: a sentinel-wrapped call list or a bare call
/// list at the very start of the input, with the first unconsumed position;
/// an error exactly when neither form stands there.
pub fn parse_python_nom(source: &str) -> (r: Result<(Vec<FunctionCall>, usize), ParseError>)
    ensures
        match r {
            Ok((calls, m)) => sp_top(source@, 0) == Some((calls_view(calls@), m as int))
                && calls_wf(calls@) && 0 < m <= source@.len(),
            Err(e) => sp_top(source@, 0) is None && e.pos <= source@.len() && e.kind
                != ErrorKind::UnsupportedEngine,
        },
{
    let v = chars_of(source);
    match top_parse(&v, 0) {
        Some((calls, m)) => Ok((calls, m)),
        None => Err(diagnose(&v)),
    }
}

/// The strict one-shot parse: the entire input must be one sentinel-wrapped
/// or bare call list, with no ignored prefix or suffix; a trailing remnant
/// fails at its first position.
pub fn parse(source: &str) -> (r: Result<Vec<FunctionCall>, ParseError>)
    ensures
        match r {
            Ok(calls) => crate::grammar::sp_parse_strict(source@) == Some(calls_view(calls@))
                && calls_wf(calls@),
            Err(e) => crate::grammar::sp_parse_strict(source@) is None && e.pos <= source@.len()
                && e.kind != ErrorKind::UnsupportedEngine,
        },
{
    let v = chars_of(source);
    match top_parse(&v, 0) {
        Some((calls, m)) => {
            if m == v.len() {
                Ok(calls)
            } else {
                Err(ParseError { kind: ErrorKind::UnexpectedToken, pos: m })
            }
        },
        None => Err(diagnose(&v)),
    }
}

} // verus!

//! The token layer: a hand-rolled maximal-munch lexer for the call grammar,
//! with its mathematical mirror.
//!
//! The token stream is a sequence of results: a character span that no token
//! pattern matches becomes one error item covering a single character, and
//! lexing resumes right after it.

use vstd::prelude::*;

use crate::grammar::{
    end_marker, is_digit, is_ident_char, is_ident_start, lit_at, sp_digits, sp_ident_end,
    start_marker,
};
use crate::parser::{lit_match, lit_start_marker};
use crate::text::{chars_of, string_from_chars};

verus! {

broadcast use vstd::seq::group_seq_axioms, vstd::std_specs::vec::group_vec_axioms;

/// One token of the simplified call syntax: brackets, parens, comma, equals,
/// the sentinel markers, booleans, numbers, strings and identifiers.
///
/// A string token holds the raw body between the quotes, escapes unresolved;
/// a number token holds the literal's characters.
#[derive(Debug, Clone, PartialEq)]
pub enum Token {
    Bool(bool),
    PythonStart,
    PythonEnd,
    BracketOpen,
    BracketClose,
    ParenOpen,
    ParenClose,
    Comma,
    Equals,
    Number(String),
    String(String),
    Identifier(String),
}

/// A span of input that no token pattern matches.
#[derive(Debug, Clone, Copy, PartialEq, Eq, Structural)]
pub struct LexError;

/// Mathematical view of one token-stream item.
pub enum TokView {
    Bool(bool),
    PythonStart,
    PythonEnd,
    BracketOpen,
    BracketClose,
    ParenOpen,
    ParenClose,
    Comma,
    Equals,
    Number(Seq<char>),
    String(Seq<char>),
    Identifier(Seq<char>),
    Junk,
}

/// View of one stream item: an error item views as `Junk`.
pub open spec fn tok_view(t: Result<Token, LexError>) -> TokView {
    match t {
        Ok(Token::Bool(b)) => TokView::Bool(b),
        Ok(Token::PythonStart) => TokView::PythonStart,
        Ok(Token::PythonEnd) => TokView::PythonEnd,
        Ok(Token::BracketOpen) => TokView::BracketOpen,
        Ok(Token::BracketClose) => TokView::BracketClose,
        Ok(Token::ParenOpen) => TokView::ParenOpen,
        Ok(Token::ParenClose) => TokView::ParenClose,
        Ok(Token::Comma) => TokView::Comma,
        Ok(Token::Equals) => TokView::Equals,
        Ok(Token::Number(t)) => TokView::Number(t@),
        Ok(Token::String(t)) => TokView::String(t@),
        Ok(Token::Identifier(t)) => TokView::Identifier(t@),
        Err(_) => TokView::Junk,
    }
}

/// View of a token stream, elementwise.
pub open spec fn toks_view(s: Seq<Result<Token, LexError>>) -> Seq<TokView>
    decreases s,
{
    if s.len() == 0 {
        Seq::empty()
    } else {
        toks_view(s.drop_last()).push(tok_view(s.last()))
    }
}

pub broadcast proof fn lemma_toks_view_len(s: Seq<Result<Token, LexError>>)
    ensures
        (#[trigger] toks_view(s)).len() == s.len(),
    decreases s,
{
    if s.len() > 0 {
        lemma_toks_view_len(s.drop_last());
        assert(toks_view(s) == toks_view(s.drop_last()).push(tok_view(s.last())));
    }
}

pub broadcast proof fn lemma_toks_view_index(s: Seq<Result<Token, LexError>>, i: int)
    requires
        0 <= i < s.len(),
    ensures
        #[trigger] toks_view(s)[i] == tok_view(s[i]),
    decreases s,
{
    lemma_toks_view_len(s.drop_last());
    assert(toks_view(s) == toks_view(s.drop_last()).push(tok_view(s.last())));
    if i < s.len() - 1 {
        lemma_toks_view_index(s.drop_last(), i);
        assert(s.drop_last()[i] == s[i]);
    }
}

pub broadcast proof fn lemma_toks_view_push(s: Seq<Result<Token, LexError>>, x: Result<Token, LexError>)
    ensures
        #[trigger] toks_view(s.push(x)) == toks_view(s).push(tok_view(x)),
{
    assert(s.push(x).drop_last() =~= s);
    assert(s.push(x).last() == x);
    assert(toks_view(s.push(x)) == toks_view(s.push(x).drop_last()).push(tok_view(s.push(x).last())));
}

/// Whitespace that the lexer skips between tokens: space, tab, carriage
/// return, newline, form feed.
pub open spec fn is_tok_space(c: char) -> bool {
    c == ' ' || c == '\t' || c == '\r' || c == '\n' || c == '\u{c}'
}

/// First position at or after `i` not holding lexer whitespace.
pub open spec fn sp_tok_ws(s: Seq<char>, i: int) -> int
    decreases s.len() - i,
{
    if 0 <= i < s.len() && is_tok_space(s[i]) {
        sp_tok_ws(s, i + 1)
    } else {
        i
    }
}

/// Position of the closing quote of a token-level string body: a newline,
/// bare or escaped, ends the match, and a backslash otherwise escapes the
/// character after it.
pub open spec fn sp_tok_str_end(s: Seq<char>, i: int, q: char) -> Option<int>
    decreases s.len() - i,
{
    if !(0 <= i) || i >= s.len() {
        None
    } else if s[i] == q {
        Some(i)
    } else if s[i] == '\n' {
        None
    } else if s[i] == '\\' {
        if i + 1 < s.len() && s[i + 1] != '\n' {
            sp_tok_str_end(s, i + 2, q)
        } else {
            None
        }
    } else {
        sp_tok_str_end(s, i + 1, q)
    }
}

/// A token-level numeric literal at exactly position `i`: an optional
/// minus, then a single zero or a nonzero digit run, an optional fraction,
/// an optional exponent; yields the literal's characters.
pub open spec fn sp_tok_number(s: Seq<char>, i: int) -> Option<(Seq<char>, int)> {
    let i1: int = if 0 <= i < s.len() && s[i] == '-' {
        i + 1
    } else {
        i
    };
    if !(0 <= i1 && i1 < s.len() && is_digit(s[i1])) {
        None
    } else {
        let i2: int = if s[i1] == '0' {
            i1 + 1
        } else {
            sp_digits(s, i1)
        };
        let i3: int = if i2 < s.len() && s[i2] == '.' && sp_digits(s, i2 + 1) > i2 + 1 {
            sp_digits(s, i2 + 1)
        } else {
            i2
        };
        let i4: int = if i3 < s.len() && (s[i3] == 'e' || s[i3] == 'E') {
            let isig: int = if i3 + 1 < s.len() && (s[i3 + 1] == '+' || s[i3 + 1] == '-') {
                i3 + 2
            } else {
                i3 + 1
            };
            if sp_digits(s, isig) > isig {
                sp_digits(s, isig)
            } else {
                i3
            }
        } else {
            i3
        };
        Some((s.subrange(i, i4), i4))
    }
}

/// The token at position `i`, which must hold a non-space character, and
/// the position past it.  An unmatched character yields `Junk` over that one
/// character.
pub open spec fn sp_token_at(s: Seq<char>, i: int) -> (TokView, int) {
    let c: char = s[i];
    if c == '[' {
        (TokView::BracketOpen, i + 1)
    } else if c == ']' {
        (TokView::BracketClose, i + 1)
    } else if c == '(' {
        (TokView::ParenOpen, i + 1)
    } else if c == ')' {
        (TokView::ParenClose, i + 1)
    } else if c == ',' {
        (TokView::Comma, i + 1)
    } else if c == '=' {
        (TokView::Equals, i + 1)
    } else if lit_at(s, i, start_marker()) {
        (TokView::PythonStart, i + 16)
    } else if lit_at(s, i, end_marker()) {
        (TokView::PythonEnd, i + 14)
    } else if c == '"' || c == '\'' {
        match sp_tok_str_end(s, i + 1, c) {
            Some(e) => (TokView::String(s.subrange(i + 1, e)), e + 1),
            None => (TokView::Junk, i + 1),
        }
    } else if c == '-' || is_digit(c) {
        match sp_tok_number(s, i) {
            Some((t, m)) => (TokView::Number(t), m),
            None => (TokView::Junk, i + 1),
        }
    } else if is_ident_start(c) {
        let e: int = sp_ident_end(s, i + 1);
        let t: Seq<char> = s.subrange(i, e);
        if t == seq!['T', 'r', 'u', 'e'] {
            (TokView::Bool(true), e)
        } else if t == seq!['F', 'a', 'l', 's', 'e'] {
            (TokView::Bool(false), e)
        } else {
            (TokView::Identifier(t), e)
        }
    } else {
        (TokView::Junk, i + 1)
    }
}

/// The token stream of `s` from position `i` on: whitespace is skipped, one
/// token is taken, and the rest follows.
pub open spec fn sp_lex(s: Seq<char>, i: int) -> Seq<TokView>
    decreases s.len() - i,
{
    if !(0 <= i <= s.len()) {
        Seq::empty()
    } else {
        let j: int = sp_tok_ws(s, i);
        if !(i <= j < s.len()) {
            Seq::empty()
        } else {
            let tm: (TokView, int) = sp_token_at(s, j);
            if j < tm.1 <= s.len() {
                seq![tm.0] + sp_lex(s, tm.1)
            } else {
                Seq::empty()
            }
        }
    }
}

/// A token-level closing quote, when found, lies at or past the body's
/// start and before the end of the input.
pub proof fn lemma_tok_str_end_bounds(s: Seq<char>, i: int, q: char)
    requires
        0 <= i,
    ensures
        sp_tok_str_end(s, i, q) matches Some(e) ==> i <= e < s.len(),
    decreases s.len() - i,
{
    if i < s.len() && s[i] != q && s[i] != '\n' {
        if s[i] == '\\' {
            if i + 1 < s.len() && s[i + 1] != '\n' {
                lemma_tok_str_end_bounds(s, i + 2, q);
            }
        } else {
            lemma_tok_str_end_bounds(s, i + 1, q);
        }
    }
}

/// A token-level number ends past its start and within the input.
pub proof fn lemma_tok_number_bounds(s: Seq<char>, i: int)
    requires
        0 <= i <= s.len(),
    ensures
        sp_tok_number(s, i) matches Some((t, m)) ==> i < m <= s.len(),
{
    let i1: int = if i < s.len() && s[i] == '-' {
        i + 1
    } else {
        i
    };
    if i1 < s.len() && is_digit(s[i1]) {
        crate::grammar::lemma_digits_bounds(s, i1);
        if s[i1] != '0' {
            assert(sp_digits(s, i1) == sp_digits(s, i1 + 1));
            crate::grammar::lemma_digits_bounds(s, i1 + 1);
        }
        let i2: int = if s[i1] == '0' {
            i1 + 1
        } else {
            sp_digits(s, i1)
        };
        if i2 < s.len() && s[i2] == '.' {
            crate::grammar::lemma_digits_bounds(s, i2 + 1);
        }
        let i3: int = if i2 < s.len() && s[i2] == '.' && sp_digits(s, i2 + 1) > i2 + 1 {
            sp_digits(s, i2 + 1)
        } else {
            i2
        };
        if i3 < s.len() && (s[i3] == 'e' || s[i3] == 'E') {
            let isig: int = if i3 + 1 < s.len() && (s[i3 + 1] == '+' || s[i3 + 1] == '-') {
                i3 + 2
            } else {
                i3 + 1
            };
            if isig <= s.len() {
                crate::grammar::lemma_digits_bounds(s, isig);
            }
        }
    }
}

/// A token ends past its start and within the input.
pub proof fn lemma_token_at_bounds(s: Seq<char>, i: int)
    requires
        0 <= i < s.len(),
    ensures
        i < sp_token_at(s, i).1 <= s.len(),
{
    let c: char = s[i];
    if c == '"' || c == '\'' {
        lemma_tok_str_end_bounds(s, i + 1, c);
    } else if c == '-' || is_digit(c) {
        lemma_tok_number_bounds(s, i);
    } else if is_ident_start(c) && c != '[' && c != ']' && c != '(' && c != ')' && c != ','
        && c != '=' {
        crate::grammar::lemma_ident_end_bounds(s, i + 1);
    }
}

/// The token stream of the whole input.
pub fn tokenize(source: &str) -> (r: Vec<Result<Token, LexError>>)
    ensures
        toks_view(r@) == sp_lex(source@, 0),
{
    let v = chars_of(source);
    let n: usize = v.len();
    let mut out: Vec<Result<Token, LexError>> = Vec::new();
    let mut cur: usize = 0;
    proof {
        assert(toks_view(out@) == Seq::<TokView>::empty());
    }
    loop
        invariant
            cur <= n,
            n == v@.len(),
            v@ == source@,
            sp_lex(source@, 0) == toks_view(out@) + sp_lex(v@, cur as int),
        decreases n - cur,
    {
        let j: usize = tok_skip_ws(&v, cur);
        if j >= n {
            proof {
                assert(sp_lex(v@, cur as int) =~= Seq::<TokView>::empty());
                assert(toks_view(out@) + Seq::<TokView>::empty() =~= toks_view(out@));
            }
            return out;
        }
        let (tok, m) = token_at(&v, j);
        proof {
            lemma_token_at_bounds(v@, j as int);
            assert(sp_lex(v@, cur as int) == seq![sp_token_at(v@, j as int).0] + sp_lex(
                v@,
                m as int,
            ));
        }
        let ghost old_out = out@;
        out.push(tok);
        proof {
            lemma_toks_view_push(old_out, out@.last());
            assert(toks_view(old_out) + (seq![tok_view(out@.last())] + sp_lex(v@, m as int))
                =~= toks_view(old_out).push(tok_view(out@.last())) + sp_lex(v@, m as int));
        }
        cur = m;
    }
}

/// First position at or after `i` not holding lexer whitespace.
fn tok_skip_ws(v: &Vec<char>, i: usize) -> (r: usize)
    requires
        i <= v@.len(),
    ensures
        r as int == sp_tok_ws(v@, i as int),
        i <= r <= v@.len(),
{
    let mut j: usize = i;
    while j < v.len() && is_tok_space_c(v[j])
        invariant
            i <= j <= v@.len(),
            sp_tok_ws(v@, i as int) == sp_tok_ws(v@, j as int),
        decreases v@.len() - j,
    {
        proof {
            assert(sp_tok_ws(v@, j as int) == sp_tok_ws(v@, j + 1));
        }
        j = j + 1;
    }
    proof {
        assert(sp_tok_ws(v@, j as int) == j as int);
    }
    j
}

fn is_tok_space_c(c: char) -> (b: bool)
    ensures
        b == is_tok_space(c),
{
    c == ' ' || c == '\t' || c == '\r' || c == '\n' || c == '\u{c}'
}

/// Position of the token-level closing quote of a string body starting at
/// `i`.
fn tok_find_str_end(v: &Vec<char>, i: usize, q: char) -> (r: Option<usize>)
    requires
        i <= v@.len(),
    ensures
        match r {
            Some(e) => sp_tok_str_end(v@, i as int, q) == Some(e as int) && i <= e < v@.len(),
            None => sp_tok_str_end(v@, i as int, q) is None,
        },
{
    let n: usize = v.len();
    let mut j: usize = i;
    while j < n
        invariant
            i <= j <= n,
            n == v@.len(),
            sp_tok_str_end(v@, i as int, q) == sp_tok_str_end(v@, j as int, q),
        decreases n - j,
    {
        let c: char = v[j];
        if c == q {
            return Some(j);
        } else if c == '\n' {
            proof {
                assert(sp_tok_str_end(v@, j as int, q) is None);
            }
            return None;
        } else if c == '\\' {
            if j + 1 < n && v[j + 1] != '\n' {
                proof {
                    assert(sp_tok_str_end(v@, j as int, q) == sp_tok_str_end(v@, j + 2, q));
                }
                j = j + 2;
            } else {
                proof {
                    assert(sp_tok_str_end(v@, j as int, q) is None);
                }
                return None;
            }
        } else {
            proof {
                assert(sp_tok_str_end(v@, j as int, q) == sp_tok_str_end(v@, j + 1, q));
            }
            j = j + 1;
        }
    }
    proof {
        assert(sp_tok_str_end(v@, j as int, q) is None);
    }
    None
}

/// A token-level numeric literal at exactly position `i`.
fn tok_number(v: &Vec<char>, i: usize) -> (r: Option<(String, usize)>)
    requires
        i <= v@.len(),
    ensures
        match r {
            Some((t, m)) => sp_tok_number(v@, i as int) == Some((t@, m as int)) && i < m
                <= v@.len(),
            None => sp_tok_number(v@, i as int) is None,
        },
{
    let n: usize = v.len();
    let i1: usize = if i < n && v[i] == '-' {
        i + 1
    } else {
        i
    };
    if !(i1 < n && crate::parser::is_digit_c(v[i1])) {
        return None;
    }
    let i2: usize = if v[i1] == '0' {
        i1 + 1
    } else {
        proof {
            assert(sp_digits(v@, i1 as int) == sp_digits(v@, i1 + 1));
            crate::grammar::lemma_digits_bounds(v@, i1 + 1);
        }
        crate::parser::scan_digits(v, i1)
    };
    let i3: usize = if i2 < n && v[i2] == '.' {
        let d: usize = crate::parser::scan_digits(v, i2 + 1);
        if d > i2 + 1 {
            d
        } else {
            i2
        }
    } else {
        i2
    };
    let i4: usize = if i3 < n && (v[i3] == 'e' || v[i3] == 'E') {
        let isig: usize = if i3 + 1 < n && (v[i3 + 1] == '+' || v[i3 + 1] == '-') {
            i3 + 2
        } else {
            i3 + 1
        };
        let d: usize = crate::parser::scan_digits(v, isig);
        if d > isig {
            d
        } else {
            i3
        }
    } else {
        i3
    };
    let text = crate::parser::chars_range(v, i, i4);
    let t = string_from_chars(&text);
    Some((t, i4))
}




fn lit_end_marker_l() -> (r: Vec<char>)
    ensures
        r@ == end_marker(),
{
    let mut r: Vec<char> = Vec::new();
    r.push('<');
    r.push('|');
    r.push('p');
    r.push('y');
    r.push('t');
    r.push('h');
    r.push('o');
    r.push('n');
    r.push('_');
    r.push('e');
    r.push('n');
    r.push('d');
    r.push('|');
    r.push('>');
    proof {
        assert(r@ =~= end_marker());
    }
    r
}

/// The token at position `i`, which must hold a non-space character.
fn token_at(v: &Vec<char>, i: usize) -> (r: (Result<Token, LexError>, usize))
    requires
        i < v@.len(),
    ensures
        tok_view(r.0) == sp_token_at(v@, i as int).0,
        r.1 as int == sp_token_at(v@, i as int).1,
        i < r.1 <= v@.len(),
{
    let n: usize = v.len();
    proof {
        lemma_token_at_bounds(v@, i as int);
    }
    let c: char = v[i];
    if c == '[' {
        (Ok(Token::BracketOpen), i + 1)
    } else if c == ']' {
        (Ok(Token::BracketClose), i + 1)
    } else if c == '(' {
        (Ok(Token::ParenOpen), i + 1)
    } else if c == ')' {
        (Ok(Token::ParenClose), i + 1)
    } else if c == ',' {
        (Ok(Token::Comma), i + 1)
    } else if c == '=' {
        (Ok(Token::Equals), i + 1)
    } else {
        let sm = lit_start_marker();
        if lit_match(v, i, &sm) {
            return (Ok(Token::PythonStart), i + 16);
        }
        let em = lit_end_marker_l();
        if lit_match(v, i, &em) {
            return (Ok(Token::PythonEnd), i + 14);
        }
        if c == '"' || c == '\'' {
            match tok_find_str_end(v, i + 1, c) {
                Some(e) => {
                    let body = crate::parser::chars_range(v, i + 1, e);
                    let t = string_from_chars(&body);
                    (Ok(Token::String(t)), e + 1)
                },
                None => (Err(LexError), i + 1),
            }
        } else if c == '-' || crate::parser::is_digit_c(c) {
            match tok_number(v, i) {
                Some((t, m)) => (Ok(Token::Number(t)), m),
                None => (Err(LexError), i + 1),
            }
        } else if crate::parser::is_ident_start_c(c) {
            let e: usize = crate::parser::scan_ident_end(v, i + 1);
            let text = crate::parser::chars_range(v, i, e);
            let tl = tok_lit_true();
            let fl = tok_lit_false();
            if chars_eq(&text, &tl) {
                (Ok(Token::Bool(true)), e)
            } else if chars_eq(&text, &fl) {
                (Ok(Token::Bool(false)), e)
            } else {
                let t = string_from_chars(&text);
                (Ok(Token::Identifier(t)), e)
            }
        } else {
            (Err(LexError), i + 1)
        }
    }
}




fn tok_lit_true() -> (r: Vec<char>)
    ensures
        r@ == seq!['T', 'r', 'u', 'e'],
{
    let mut r: Vec<char> = Vec::new();
    r.push('T');
    r.push('r');
    r.push('u');
    r.push('e');
    proof {
        assert(r@ =~= seq!['T', 'r', 'u', 'e']);
    }
    r
}

fn tok_lit_false() -> (r: Vec<char>)
    ensures
        r@ == seq!['F', 'a', 'l', 's', 'e'],
{
    let mut r: Vec<char> = Vec::new();
    r.push('F');
    r.push('a');
    r.push('l');
    r.push('s');
    r.push('e');
    proof {
        assert(r@ =~= seq!['F', 'a', 'l', 's', 'e']);
    }
    r
}

/// Elementwise equality of two character vectors.
pub(crate) fn chars_eq(a: &Vec<char>, b: &Vec<char>) -> (r: bool)
    ensures
        r == (a@ == b@),
{
    if a.len() != b.len() {
        return false;
    }
    let mut k: usize = 0;
    while k < a.len()
        invariant
            k <= a@.len(),
            a@.len() == b@.len(),
            forall|t: int| 0 <= t < k ==> a@[t] == b@[t],
        decreases a@.len() - k,
    {
        if a[k] != b[k] {
            return false;
        }
        k = k + 1;
    }
    proof {
        assert(a@ =~= b@);
    }
    true
}

} // verus!

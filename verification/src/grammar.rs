//! The grammar, stated mathematically.
//!
//! Each `sp_` function is a deterministic recursive-descent parse over a
//! character sequence: given a start position it yields the parsed
//! construct's view and the first position past it, or nothing when the
//! construct is not present.  The executable parser is proved to return
//! exactly these results.
//!
//! A few branches guard recursion on positions that, as the bounds lemmas
//! later show, always advance; those branches are unreachable and exist only
//! so that each definition visibly terminates.

use vstd::prelude::*;

use crate::value::{CallView, ValueView};

verus! {

/// Whitespace between tokens: space, tab, carriage return, newline.
pub open spec fn is_space(c: char) -> bool {
    c == ' ' || c == '\t' || c == '\r' || c == '\n'
}

pub open spec fn is_digit(c: char) -> bool {
    48 <= (c as u32) && (c as u32) <= 57
}

pub open spec fn is_alpha(c: char) -> bool {
    (97 <= (c as u32) && (c as u32) <= 122) || (65 <= (c as u32) && (c as u32) <= 90)
}

/// First character of an identifier: a letter or an underscore.
pub open spec fn is_ident_start(c: char) -> bool {
    is_alpha(c) || c == '_'
}

/// Later character of an identifier: a letter, a digit or an underscore.
pub open spec fn is_ident_char(c: char) -> bool {
    is_ident_start(c) || is_digit(c)
}

/// The sentinel that opens an embedded call list.
pub open spec fn start_marker() -> Seq<char> {
    seq!['<', '|', 'p', 'y', 't', 'h', 'o', 'n', '_', 's', 't', 'a', 'r', 't', '|', '>']
}

/// The sentinel that closes an embedded call list.
pub open spec fn end_marker() -> Seq<char> {
    seq!['<', '|', 'p', 'y', 't', 'h', 'o', 'n', '_', 'e', 'n', 'd', '|', '>']
}

/// The literal `m` stands at position `i` of `s`.
pub open spec fn lit_at(s: Seq<char>, i: int, m: Seq<char>) -> bool {
    0 <= i && i + m.len() <= s.len() && s.subrange(i, i + m.len()) == m
}

/// First position at or after `i` that does not hold whitespace.
pub open spec fn sp_ws(s: Seq<char>, i: int) -> int
    decreases s.len() - i,
{
    if 0 <= i < s.len() && is_space(s[i]) {
        sp_ws(s, i + 1)
    } else {
        i
    }
}

/// First position at or after `i` that does not hold a digit.
pub open spec fn sp_digits(s: Seq<char>, i: int) -> int
    decreases s.len() - i,
{
    if 0 <= i < s.len() && is_digit(s[i]) {
        sp_digits(s, i + 1)
    } else {
        i
    }
}

/// First position at or after `i` that does not hold an identifier character.
pub open spec fn sp_ident_end(s: Seq<char>, i: int) -> int
    decreases s.len() - i,
{
    if 0 <= i < s.len() && is_ident_char(s[i]) {
        sp_ident_end(s, i + 1)
    } else {
        i
    }
}

/// An identifier at exactly position `i`: a leading letter or underscore,
/// then letters, digits and underscores; yields its characters.
pub open spec fn sp_ident(s: Seq<char>, i: int) -> Option<(Seq<char>, int)> {
    if 0 <= i < s.len() && is_ident_start(s[i]) {
        let e: int = sp_ident_end(s, i + 1);
        Some((s.subrange(i, e), e))
    } else {
        None
    }
}

/// A numeric literal at exactly position `i`: an optional minus, digits, an
/// optional fraction (a dot needs at least one digit to count), an optional
/// exponent (which needs at least one digit to count); yields the literal's
/// characters unchanged.
pub open spec fn sp_number(s: Seq<char>, i: int) -> Option<(Seq<char>, int)> {
    let i1: int = if 0 <= i < s.len() && s[i] == '-' {
        i + 1
    } else {
        i
    };
    let i2: int = sp_digits(s, i1);
    if i2 == i1 {
        None
    } else {
        let i3: int = if i2 < s.len() && s[i2] == '.' && sp_digits(s, i2 + 1) > i2 + 1 {
            sp_digits(s, i2 + 1)
        } else {
            i2
        };
        let i4: int = if i3 < s.len() && (s[i3] == 'e' || s[i3] == 'E') {
            let isig: int = if i3 + 1 < s.len() && (s[i3 + 1] == '+' || s[i3 + 1] == '-') {
                i3 + 2
            } else {
                i3 + 1
            };
            if sp_digits(s, isig) > isig {
                sp_digits(s, isig)
            } else {
                i3
            }
        } else {
            i3
        };
        Some((s.subrange(i, i4), i4))
    }
}

/// Position of the closing quote of a string body that starts at `i`, where a
/// backslash always escapes the character after it; nothing when the quote
/// never closes.
pub open spec fn sp_str_end(s: Seq<char>, i: int, q: char) -> Option<int>
    decreases s.len() - i,
{
    if !(0 <= i) || i >= s.len() {
        None
    } else if s[i] == q {
        Some(i)
    } else if s[i] == '\\' {
        if i + 1 < s.len() {
            sp_str_end(s, i + 2, q)
        } else {
            None
        }
    } else {
        sp_str_end(s, i + 1, q)
    }
}

/// Resolution of a string body's escapes: a backslash pair keeps backslash,
/// either quote, or maps `n`, `r`, `t` to their control characters; any other
/// escaped character is kept as itself; a trailing lone backslash stays a
/// backslash.
pub open spec fn sp_unescape(b: Seq<char>) -> Seq<char>
    decreases b.len(),
{
    if b.len() == 0 {
        Seq::empty()
    } else if b[0] == '\\' {
        if b.len() == 1 {
            seq!['\\']
        } else {
            let c: char = b[1];
            let r: char = if c == 'n' {
                '\n'
            } else if c == 'r' {
                '\r'
            } else if c == 't' {
                '\t'
            } else {
                c
            };
            seq![r] + sp_unescape(b.subrange(2, b.len() as int))
        }
    } else {
        seq![b[0]] + sp_unescape(b.subrange(1, b.len() as int))
    }
}

/// A quoted string at exactly position `i`, single- or double-quoted; yields
/// the body with its escapes resolved.
pub open spec fn sp_string(s: Seq<char>, i: int) -> Option<(Seq<char>, int)> {
    if 0 <= i < s.len() && (s[i] == '"' || s[i] == '\'') {
        match sp_str_end(s, i + 1, s[i]) {
            Some(e) => Some((sp_unescape(s.subrange(i + 1, e)), e + 1)),
            None => None,
        }
    } else {
        None
    }
}

/// A literal value: leading whitespace is skipped, then the alternatives are
/// tried in this order: boolean, string, number, null literal, list, dict,
/// identifier.  The order matters: the keywords would otherwise be consumed
/// as identifiers.
pub open spec fn sp_value(s: Seq<char>, i: int) -> Option<(ValueView, int)>
    decreases s.len() - i, 0int,
{
    let j: int = sp_ws(s, i);
    if !(0 <= i <= j <= s.len()) {
        None
    } else if lit_at(s, j, seq!['T', 'r', 'u', 'e']) {
        Some((ValueView::Bool(true), j + 4))
    } else if lit_at(s, j, seq!['F', 'a', 'l', 's', 'e']) {
        Some((ValueView::Bool(false), j + 5))
    } else if j < s.len() && (s[j] == '"' || s[j] == '\'') {
        match sp_string(s, j) {
            Some((t, m)) => Some((ValueView::String(t), m)),
            None => None,
        }
    } else {
        match sp_number(s, j) {
            Some((t, m)) => Some((ValueView::Number(t), m)),
            None => if lit_at(s, j, seq!['N', 'o', 'n', 'e']) {
                Some((ValueView::Empty, j + 4))
            } else if j < s.len() && s[j] == '[' {
                sp_list_first(s, j + 1)
            } else if j < s.len() && s[j] == '{' {
                sp_dict_first(s, j + 1)
            } else {
                match sp_ident(s, j) {
                    Some((t, m)) => Some((ValueView::Identifier(t), m)),
                    None => None,
                }
            },
        }
    }
}

/// The inside of a list, just past the opening bracket: either a closing
/// bracket after whitespace, or a first element followed by more.
pub open spec fn sp_list_first(s: Seq<char>, i: int) -> Option<(ValueView, int)>
    decreases s.len() - i, 1int,
{
    if !(0 <= i <= s.len()) {
        None
    } else {
        match sp_value(s, i) {
            Some((v, m)) => if m <= i || m > s.len() {
                None
            } else {
                sp_list_more(s, m, seq![v])
            },
            None => {
                let k: int = sp_ws(s, i);
                if i <= k < s.len() && s[k] == ']' {
                    Some((ValueView::List(Seq::empty()), k + 1))
                } else {
                    None
                }
            },
        }
    }
}

/// The inside of a list after an element: either a comma and another
/// element, or the closing bracket.  A trailing comma fails.
pub open spec fn sp_list_more(s: Seq<char>, i: int, acc: Seq<ValueView>) -> Option<(ValueView, int)>
    decreases s.len() - i, 1int,
{
    if !(0 <= i <= s.len()) {
        None
    } else {
        let k: int = sp_ws(s, i);
        if !(i <= k <= s.len()) {
            None
        } else if k < s.len() && s[k] == ',' {
            match sp_value(s, k + 1) {
                Some((v, m)) => if m <= k + 1 || m > s.len() {
                    None
                } else {
                    sp_list_more(s, m, acc.push(v))
                },
                None => None,
            }
        } else if k < s.len() && s[k] == ']' {
            Some((ValueView::List(acc), k + 1))
        } else {
            None
        }
    }
}

/// One dict entry: a quoted string key, a colon, a value.
pub open spec fn sp_dict_pair(s: Seq<char>, i: int) -> Option<((Seq<char>, ValueView), int)>
    decreases s.len() - i, 1int,
{
    if !(0 <= i <= s.len()) {
        None
    } else {
        let j: int = sp_ws(s, i);
        if !(i <= j <= s.len()) {
            None
        } else {
            match sp_string(s, j) {
                Some((key, m1)) => {
                    if m1 <= j {
                        None
                    } else {
                        let c: int = sp_ws(s, m1);
                        if !(m1 <= c) {
                            None
                        } else if c < s.len() && s[c] == ':' {
                            match sp_value(s, c + 1) {
                                Some((v, m2)) => Some(((key, v), m2)),
                                None => None,
                            }
                        } else {
                            None
                        }
                    }
                },
                None => None,
            }
        }
    }
}

/// The inside of a dict, just past the opening brace.  The entries are
/// flattened into a list of alternating keys and values, in source order.
pub open spec fn sp_dict_first(s: Seq<char>, i: int) -> Option<(ValueView, int)>
    decreases s.len() - i, 2int,
{
    if !(0 <= i <= s.len()) {
        None
    } else {
        match sp_dict_pair(s, i) {
            Some(((key, v), m)) => if m <= i || m > s.len() {
                None
            } else {
                sp_dict_more(s, m, seq![ValueView::String(key), v])
            },
            None => {
                let k: int = sp_ws(s, i);
                if i <= k < s.len() && s[k] == '}' {
                    Some((ValueView::List(Seq::empty()), k + 1))
                } else {
                    None
                }
            },
        }
    }
}

/// The inside of a dict after an entry: either a comma and another entry, or
/// the closing brace.
pub open spec fn sp_dict_more(s: Seq<char>, i: int, acc: Seq<ValueView>) -> Option<(ValueView, int)>
    decreases s.len() - i, 2int,
{
    if !(0 <= i <= s.len()) {
        None
    } else {
        let k: int = sp_ws(s, i);
        if !(i <= k <= s.len()) {
            None
        } else if k < s.len() && s[k] == ',' {
            match sp_dict_pair(s, k + 1) {
                Some(((key, v), m)) => if m <= k + 1 || m > s.len() {
                    None
                } else {
                    sp_dict_more(s, m, acc + seq![ValueView::String(key), v])
                },
                None => None,
            }
        } else if k < s.len() && s[k] == '}' {
            Some((ValueView::List(acc), k + 1))
        } else {
            None
        }
    }
}

/// One keyword argument: an identifier, an equals sign, a value, with
/// whitespace tolerated around the equals sign.
pub open spec fn sp_kwarg(s: Seq<char>, i: int) -> Option<((Seq<char>, ValueView), int)>
    decreases s.len() - i, 1int,
{
    if !(0 <= i <= s.len()) {
        None
    } else {
        let j: int = sp_ws(s, i);
        if !(i <= j <= s.len()) {
            None
        } else {
            match sp_ident(s, j) {
                Some((key, m1)) => {
                    if m1 <= j {
                        None
                    } else {
                        let e: int = sp_ws(s, m1);
                        if !(m1 <= e) {
                            None
                        } else if e < s.len() && s[e] == '=' {
                            match sp_value(s, e + 1) {
                                Some((v, m2)) => Some(((key, v), m2)),
                                None => None,
                            }
                        } else {
                            None
                        }
                    }
                },
                None => None,
            }
        }
    }
}

/// The inside of an argument list, just past the opening parenthesis: either
/// a closing parenthesis after whitespace, or keyword arguments.  A key that
/// appears again overwrites its earlier binding.
pub open spec fn sp_kwargs_first(s: Seq<char>, i: int) -> Option<(Map<Seq<char>, ValueView>, int)>
    decreases s.len() - i, 2int,
{
    if !(0 <= i <= s.len()) {
        None
    } else {
        match sp_kwarg(s, i) {
            Some(((key, v), m)) => if m <= i || m > s.len() {
                None
            } else {
                sp_kwargs_more(s, m, Map::empty().insert(key, v))
            },
            None => {
                let k: int = sp_ws(s, i);
                if i <= k < s.len() && s[k] == ')' {
                    Some((Map::empty(), k + 1))
                } else {
                    None
                }
            },
        }
    }
}

/// The inside of an argument list after an argument: either a comma and
/// another argument, or the closing parenthesis.
pub open spec fn sp_kwargs_more(
    s: Seq<char>,
    i: int,
    acc: Map<Seq<char>, ValueView>,
) -> Option<(Map<Seq<char>, ValueView>, int)>
    decreases s.len() - i, 2int,
{
    if !(0 <= i <= s.len()) {
        None
    } else {
        let k: int = sp_ws(s, i);
        if !(i <= k <= s.len()) {
            None
        } else if k < s.len() && s[k] == ',' {
            match sp_kwarg(s, k + 1) {
                Some(((key, v), m)) => if m <= k + 1 || m > s.len() {
                    None
                } else {
                    sp_kwargs_more(s, m, acc.insert(key, v))
                },
                None => None,
            }
        } else if k < s.len() && s[k] == ')' {
            Some((acc, k + 1))
        } else {
            None
        }
    }
}

/// A function call at exactly position `i`: an identifier immediately
/// followed by a parenthesised argument list, with no whitespace between
/// name and opening parenthesis.
pub open spec fn sp_call(s: Seq<char>, i: int) -> Option<(CallView, int)>
    decreases s.len() - i, 3int,
{
    if !(0 <= i <= s.len()) {
        None
    } else {
        match sp_ident(s, i) {
            Some((name, m1)) => {
                if m1 <= i {
                    None
                } else if m1 < s.len() && s[m1] == '(' {
                    match sp_kwargs_first(s, m1 + 1) {
                        Some((kw, m2)) => Some((CallView { name: name, kwargs: kw }, m2)),
                        None => None,
                    }
                } else {
                    None
                }
            },
            None => None,
        }
    }
}

/// The inside of a call list, just past the opening bracket: either a
/// closing bracket after whitespace, or calls separated by commas.
pub open spec fn sp_call_list_first(s: Seq<char>, i: int) -> Option<(Seq<CallView>, int)>
    decreases s.len() - i, 4int,
{
    if !(0 <= i <= s.len()) {
        None
    } else {
        let j: int = sp_ws(s, i);
        if !(i <= j <= s.len()) {
            None
        } else {
            match sp_call(s, j) {
                Some((c, m)) => if m <= i || m > s.len() {
                    None
                } else {
                    sp_call_list_more(s, m, seq![c])
                },
                None => {
                    let k: int = sp_ws(s, i);
                    if i <= k < s.len() && s[k] == ']' {
                        Some((Seq::empty(), k + 1))
                    } else {
                        None
                    }
                },
            }
        }
    }
}

/// The inside of a call list after a call: either a comma and another call,
/// or the closing bracket.
pub open spec fn sp_call_list_more(
    s: Seq<char>,
    i: int,
    acc: Seq<CallView>,
) -> Option<(Seq<CallView>, int)>
    decreases s.len() - i, 4int,
{
    if !(0 <= i <= s.len()) {
        None
    } else {
        let k: int = sp_ws(s, i);
        if !(i <= k <= s.len()) {
            None
        } else if k < s.len() && s[k] == ',' {
            let j: int = sp_ws(s, k + 1);
            if !(k + 1 <= j <= s.len()) {
                None
            } else {
                match sp_call(s, j) {
                    Some((c, m)) => if m <= k + 1 || m > s.len() {
                        None
                    } else {
                        sp_call_list_more(s, m, acc.push(c))
                    },
                    None => None,
                }
            }
        } else if k < s.len() && s[k] == ']' {
            Some((acc, k + 1))
        } else {
            None
        }
    }
}

/// A bracketed call list at exactly position `i`.
pub open spec fn sp_call_list(s: Seq<char>, i: int) -> Option<(Seq<CallView>, int)>
    decreases s.len() - i, 5int,
{
    if 0 <= i < s.len() && s[i] == '[' {
        sp_call_list_first(s, i + 1)
    } else {
        None
    }
}

/// The top-level parse at exactly position `i`: first the sentinel-wrapped
/// form, the start marker, a call list and the end marker with nothing in
/// between; then, if that fails, a bare call list.
pub open spec fn sp_top(s: Seq<char>, i: int) -> Option<(Seq<CallView>, int)>
    decreases s.len() - i, 6int,
{
    if !(0 <= i <= s.len()) {
        None
    } else {
        let wrapped: Option<(Seq<CallView>, int)> = if lit_at(s, i, start_marker()) {
            match sp_call_list(s, i + 16) {
                Some((calls, m)) => if lit_at(s, m, end_marker()) {
                    Some((calls, m + 14))
                } else {
                    None
                },
                None => None,
            }
        } else {
            None
        };
        match wrapped {
            Some(r) => Some(r),
            None => sp_call_list(s, i),
        }
    }
}

/// Whitespace skipping stays between its start and the end of the input.
pub proof fn lemma_ws_bounds(s: Seq<char>, i: int)
    requires
        0 <= i <= s.len(),
    ensures
        i <= sp_ws(s, i) <= s.len(),
    decreases s.len() - i,
{
    if i < s.len() && is_space(s[i]) {
        lemma_ws_bounds(s, i + 1);
    }
}

/// A digit run stays between its start and the end of the input.
pub proof fn lemma_digits_bounds(s: Seq<char>, i: int)
    requires
        0 <= i <= s.len(),
    ensures
        i <= sp_digits(s, i) <= s.len(),
    decreases s.len() - i,
{
    if i < s.len() && is_digit(s[i]) {
        lemma_digits_bounds(s, i + 1);
    }
}

/// An identifier-character run stays between its start and the end of the
/// input.
pub proof fn lemma_ident_end_bounds(s: Seq<char>, i: int)
    requires
        0 <= i <= s.len(),
    ensures
        i <= sp_ident_end(s, i) <= s.len(),
    decreases s.len() - i,
{
    if i < s.len() && is_ident_char(s[i]) {
        lemma_ident_end_bounds(s, i + 1);
    }
}

/// A parsed identifier ends past its start and within the input.
pub proof fn lemma_ident_bounds(s: Seq<char>, i: int)
    requires
        0 <= i <= s.len(),
    ensures
        sp_ident(s, i) matches Some((t, m)) ==> i < m <= s.len(),
{
    if i < s.len() && is_ident_start(s[i]) {
        lemma_ident_end_bounds(s, i + 1);
    }
}

/// A parsed number ends past its start and within the input.
pub proof fn lemma_number_bounds(s: Seq<char>, i: int)
    requires
        0 <= i <= s.len(),
    ensures
        sp_number(s, i) matches Some((t, m)) ==> i < m <= s.len(),
{
    let i1: int = if i < s.len() && s[i] == '-' {
        i + 1
    } else {
        i
    };
    lemma_digits_bounds(s, i1);
    let i2: int = sp_digits(s, i1);
    if i2 != i1 {
        if i2 < s.len() && s[i2] == '.' {
            lemma_digits_bounds(s, i2 + 1);
        }
        let i3: int = if i2 < s.len() && s[i2] == '.' && sp_digits(s, i2 + 1) > i2 + 1 {
            sp_digits(s, i2 + 1)
        } else {
            i2
        };
        if i3 < s.len() && (s[i3] == 'e' || s[i3] == 'E') {
            let isig: int = if i3 + 1 < s.len() && (s[i3 + 1] == '+' || s[i3 + 1] == '-') {
                i3 + 2
            } else {
                i3 + 1
            };
            if isig <= s.len() {
                lemma_digits_bounds(s, isig);
            }
        }
    }
}

/// A closing quote, when found, lies at or past the body's start and before
/// the end of the input.
pub proof fn lemma_str_end_bounds(s: Seq<char>, i: int, q: char)
    requires
        0 <= i,
    ensures
        sp_str_end(s, i, q) matches Some(e) ==> i <= e < s.len(),
    decreases s.len() - i,
{
    if i < s.len() && s[i] != q {
        if s[i] == '\\' {
            if i + 1 < s.len() {
                lemma_str_end_bounds(s, i + 2, q);
            }
        } else {
            lemma_str_end_bounds(s, i + 1, q);
        }
    }
}

/// A parsed string ends past its start and within the input.
pub proof fn lemma_string_bounds(s: Seq<char>, i: int)
    requires
        0 <= i <= s.len(),
    ensures
        sp_string(s, i) matches Some((t, m)) ==> i < m <= s.len(),
{
    if i < s.len() && (s[i] == '"' || s[i] == '\'') {
        lemma_str_end_bounds(s, i + 1, s[i]);
    }
}

/// A parsed value ends past its start and within the input.
pub proof fn lemma_value_bounds(s: Seq<char>, i: int)
    requires
        0 <= i <= s.len(),
    ensures
        sp_value(s, i) matches Some((v, m)) ==> i < m <= s.len(),
    decreases s.len() - i, 0int,
{
    lemma_ws_bounds(s, i);
    let j: int = sp_ws(s, i);
    if j < s.len() && (s[j] == '"' || s[j] == '\'') {
        lemma_string_bounds(s, j);
    } else {
        lemma_number_bounds(s, j);
        if sp_number(s, j) is None {
            if j < s.len() && s[j] == '[' {
                lemma_list_first_bounds(s, j + 1);
            } else if j < s.len() && s[j] == '{' {
                lemma_dict_first_bounds(s, j + 1);
            } else {
                lemma_ident_bounds(s, j);
            }
        }
    }
}

/// A parsed list interior ends past its start and within the input.
pub proof fn lemma_list_first_bounds(s: Seq<char>, i: int)
    requires
        0 <= i <= s.len(),
    ensures
        sp_list_first(s, i) matches Some((v, m)) ==> i < m <= s.len(),
    decreases s.len() - i, 1int,
{
    lemma_value_bounds(s, i);
    lemma_ws_bounds(s, i);
    match sp_value(s, i) {
        Some((v, m)) => {
            lemma_list_more_bounds(s, m, seq![v]);
        },
        None => {},
    }
}

/// A parsed list continuation ends past its start and within the input.
pub proof fn lemma_list_more_bounds(s: Seq<char>, i: int, acc: Seq<ValueView>)
    requires
        0 <= i <= s.len(),
    ensures
        sp_list_more(s, i, acc) matches Some((v, m)) ==> i < m <= s.len(),
    decreases s.len() - i, 1int,
{
    lemma_ws_bounds(s, i);
    let k: int = sp_ws(s, i);
    if k < s.len() && s[k] == ',' {
        lemma_value_bounds(s, k + 1);
        match sp_value(s, k + 1) {
            Some((v, m)) => {
                lemma_list_more_bounds(s, m, acc.push(v));
            },
            None => {},
        }
    }
}

/// A parsed dict entry ends past its start and within the input.
pub proof fn lemma_dict_pair_bounds(s: Seq<char>, i: int)
    requires
        0 <= i <= s.len(),
    ensures
        sp_dict_pair(s, i) matches Some((kv, m)) ==> i < m <= s.len(),
    decreases s.len() - i, 1int,
{
    lemma_ws_bounds(s, i);
    let j: int = sp_ws(s, i);
    lemma_string_bounds(s, j);
    match sp_string(s, j) {
        Some((key, m1)) => {
            lemma_ws_bounds(s, m1);
            let c: int = sp_ws(s, m1);
            if c < s.len() && s[c] == ':' {
                lemma_value_bounds(s, c + 1);
            }
        },
        None => {},
    }
}

/// A parsed dict interior ends past its start and within the input.
pub proof fn lemma_dict_first_bounds(s: Seq<char>, i: int)
    requires
        0 <= i <= s.len(),
    ensures
        sp_dict_first(s, i) matches Some((v, m)) ==> i < m <= s.len(),
    decreases s.len() - i, 2int,
{
    lemma_dict_pair_bounds(s, i);
    lemma_ws_bounds(s, i);
    match sp_dict_pair(s, i) {
        Some(((key, v), m)) => {
            lemma_dict_more_bounds(s, m, seq![ValueView::String(key), v]);
        },
        None => {},
    }
}

/// A parsed dict continuation ends past its start and within the input.
pub proof fn lemma_dict_more_bounds(s: Seq<char>, i: int, acc: Seq<ValueView>)
    requires
        0 <= i <= s.len(),
    ensures
        sp_dict_more(s, i, acc) matches Some((v, m)) ==> i < m <= s.len(),
    decreases s.len() - i, 2int,
{
    lemma_ws_bounds(s, i);
    let k: int = sp_ws(s, i);
    if k < s.len() && s[k] == ',' {
        lemma_dict_pair_bounds(s, k + 1);
        match sp_dict_pair(s, k + 1) {
            Some(((key, v), m)) => {
                lemma_dict_more_bounds(s, m, acc + seq![ValueView::String(key), v]);
            },
            None => {},
        }
    }
}

/// A parsed keyword argument ends past its start and within the input.
pub proof fn lemma_kwarg_bounds(s: Seq<char>, i: int)
    requires
        0 <= i <= s.len(),
    ensures
        sp_kwarg(s, i) matches Some((kv, m)) ==> i < m <= s.len(),
    decreases s.len() - i, 1int,
{
    lemma_ws_bounds(s, i);
    let j: int = sp_ws(s, i);
    lemma_ident_bounds(s, j);
    match sp_ident(s, j) {
        Some((key, m1)) => {
            lemma_ws_bounds(s, m1);
            let e: int = sp_ws(s, m1);
            if e < s.len() && s[e] == '=' {
                lemma_value_bounds(s, e + 1);
            }
        },
        None => {},
    }
}

/// A parsed argument-list interior ends past its start and within the input.
pub proof fn lemma_kwargs_first_bounds(s: Seq<char>, i: int)
    requires
        0 <= i <= s.len(),
    ensures
        sp_kwargs_first(s, i) matches Some((kw, m)) ==> i < m <= s.len(),
    decreases s.len() - i, 2int,
{
    lemma_kwarg_bounds(s, i);
    lemma_ws_bounds(s, i);
    match sp_kwarg(s, i) {
        Some(((key, v), m)) => {
            lemma_kwargs_more_bounds(s, m, Map::empty().insert(key, v));
        },
        None => {},
    }
}

/// A parsed argument-list continuation ends past its start and within the
/// input.
pub proof fn lemma_kwargs_more_bounds(s: Seq<char>, i: int, acc: Map<Seq<char>, ValueView>)
    requires
        0 <= i <= s.len(),
    ensures
        sp_kwargs_more(s, i, acc) matches Some((kw, m)) ==> i < m <= s.len(),
    decreases s.len() - i, 2int,
{
    lemma_ws_bounds(s, i);
    let k: int = sp_ws(s, i);
    if k < s.len() && s[k] == ',' {
        lemma_kwarg_bounds(s, k + 1);
        match sp_kwarg(s, k + 1) {
            Some(((key, v), m)) => {
                lemma_kwargs_more_bounds(s, m, acc.insert(key, v));
            },
            None => {},
        }
    }
}

/// A parsed call ends past its start and within the input.
pub proof fn lemma_call_bounds(s: Seq<char>, i: int)
    requires
        0 <= i <= s.len(),
    ensures
        sp_call(s, i) matches Some((c, m)) ==> i < m <= s.len(),
    decreases s.len() - i, 3int,
{
    lemma_ident_bounds(s, i);
    match sp_ident(s, i) {
        Some((name, m1)) => {
            if m1 < s.len() && s[m1] == '(' {
                lemma_kwargs_first_bounds(s, m1 + 1);
            }
        },
        None => {},
    }
}

/// A parsed call-list interior ends past its start and within the input.
pub proof fn lemma_call_list_first_bounds(s: Seq<char>, i: int)
    requires
        0 <= i <= s.len(),
    ensures
        sp_call_list_first(s, i) matches Some((cs, m)) ==> i < m <= s.len(),
    decreases s.len() - i, 4int,
{
    lemma_ws_bounds(s, i);
    let j: int = sp_ws(s, i);
    lemma_call_bounds(s, j);
    match sp_call(s, j) {
        Some((c, m)) => {
            lemma_call_list_more_bounds(s, m, seq![c]);
        },
        None => {},
    }
}

/// A parsed call-list continuation ends past its start and within the input.
pub proof fn lemma_call_list_more_bounds(s: Seq<char>, i: int, acc: Seq<CallView>)
    requires
        0 <= i <= s.len(),
    ensures
        sp_call_list_more(s, i, acc) matches Some((cs, m)) ==> i < m <= s.len(),
    decreases s.len() - i, 4int,
{
    lemma_ws_bounds(s, i);
    let k: int = sp_ws(s, i);
    if k < s.len() && s[k] == ',' {
        lemma_ws_bounds(s, k + 1);
        let j: int = sp_ws(s, k + 1);
        lemma_call_bounds(s, j);
        match sp_call(s, j) {
            Some((c, m)) => {
                lemma_call_list_more_bounds(s, m, acc.push(c));
            },
            None => {},
        }
    }
}

/// A parsed bracketed call list ends past its start and within the input.
pub proof fn lemma_call_list_bounds(s: Seq<char>, i: int)
    requires
        0 <= i <= s.len(),
    ensures
        sp_call_list(s, i) matches Some((cs, m)) ==> i < m <= s.len(),
    decreases s.len() - i, 5int,
{
    if i < s.len() && s[i] == '[' {
        lemma_call_list_first_bounds(s, i + 1);
    }
}

/// A top-level parse ends past its start and within the input.
pub proof fn lemma_top_bounds(s: Seq<char>, i: int)
    requires
        0 <= i <= s.len(),
    ensures
        sp_top(s, i) matches Some((cs, m)) ==> i < m <= s.len(),
    decreases s.len() - i, 6int,
{
    if lit_at(s, i, start_marker()) {
        lemma_call_list_bounds(s, i + 16);
    }
    lemma_call_list_bounds(s, i);
}

/// The strict whole-input parse: the calls of a top-level parse at the very
/// start that consumes the entire input, and nothing otherwise.
pub open spec fn sp_parse_strict(s: Seq<char>) -> Option<Seq<CallView>> {
    match sp_top(s, 0) {
        Some((calls, m)) => if m == s.len() {
            Some(calls)
        } else {
            None
        },
        None => None,
    }
}

/// Earliest position at or after `i` where a start marker or an opening
/// bracket stands.
pub open spec fn sp_find_start(s: Seq<char>, i: int) -> Option<int>
    decreases s.len() - i,
{
    if !(0 <= i) || i >= s.len() {
        None
    } else if lit_at(s, i, start_marker()) || s[i] == '[' {
        Some(i)
    } else {
        sp_find_start(s, i + 1)
    }
}

/// The scan from position `i`: find the next candidate start, try the
/// top-level parse there; on success take its calls and continue past them,
/// on failure move one position past the candidate and try again.
pub open spec fn sp_scan(s: Seq<char>, i: int) -> Seq<CallView>
    decreases s.len() - i,
{
    if !(0 <= i <= s.len()) {
        Seq::empty()
    } else {
        match sp_find_start(s, i) {
            None => Seq::empty(),
            Some(j) => {
                if !(i <= j < s.len()) {
                    Seq::empty()
                } else {
                    match sp_top(s, j) {
                        Some((calls, m)) => if j < m <= s.len() {
                            calls + sp_scan(s, m)
                        } else {
                            Seq::empty()
                        },
                        None => sp_scan(s, j + 1),
                    }
                }
            },
        }
    }
}

} // verus!

//! The engine selector: one entry point that dispatches between the two
//! grammar engines by name.

use vstd::prelude::*;

use crate::parser::{ErrorKind, ParseError};
use crate::scanner::{parse_python_with_nom, sp_parse_with_nom};
use crate::text::chars_of;
use crate::token_parser::{parse_python, sp_token_parse};
use crate::value::{calls_view, calls_wf, FunctionCall};

verus! {

/// Parses with the engine the selector names: the strict-with-scanner
/// character engine, or the tolerant token engine; any other selector is
/// refused.
pub fn wrapped_parse_python(source: &str, engine: &str) -> (r: Result<Vec<FunctionCall>, ParseError>)
    ensures
        engine@ == seq!['n', 'o', 'm'] ==> match r {
            Ok(calls) => sp_parse_with_nom(source@) == Some(calls_view(calls@)) && calls_wf(
                calls@,
            ),
            Err(e) => sp_parse_with_nom(source@) is None && e.pos <= source@.len() && e.kind
                != ErrorKind::UnsupportedEngine,
        },
        engine@ == seq!['l', 'o', 'g', 'o', 's'] ==> r is Ok && (r matches Ok(calls)
            ==> calls_view(calls@) == sp_token_parse(source@) && calls_wf(calls@)),
        engine@ != seq!['n', 'o', 'm'] && engine@ != seq!['l', 'o', 'g', 'o', 's'] ==> (
        r matches Err(e) && e.kind == ErrorKind::UnsupportedEngine && e.pos == 0),
{
    let ev = chars_of(engine);
    let nom_sel = sel_nom();
    let logos_sel = sel_logos();
    if crate::lex::chars_eq(&ev, &nom_sel) {
        parse_python_with_nom(source)
    } else if crate::lex::chars_eq(&ev, &logos_sel) {
        parse_python(source)
    } else {
        Err(ParseError { kind: ErrorKind::UnsupportedEngine, pos: 0 })
    }
}

fn sel_nom() -> (r: Vec<char>)
    ensures
        r@ == seq!['n', 'o', 'm'],
{
    let mut r: Vec<char> = Vec::new();
    r.push('n');
    r.push('o');
    r.push('m');
    proof {
        assert(r@ =~= seq!['n', 'o', 'm']);
    }
    r
}

fn sel_logos() -> (r: Vec<char>)
    ensures
        r@ == seq!['l', 'o', 'g', 'o', 's'],
{
    let mut r: Vec<char> = Vec::new();
    r.push('l');
    r.push('o');
    r.push('g');
    r.push('o');
    r.push('s');
    proof {
        assert(r@ =~= seq!['l', 'o', 'g', 'o', 's']);
    }
    r
}

} // verus!

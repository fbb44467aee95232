use llama_tool_parser::engine::wrapped_parse_python;
use llama_tool_parser::lex::{tokenize, Token};
use llama_tool_parser::token_parser::{handle_post_value, parse_function_with_kwargs, parse_python};
use llama_tool_parser::parser::{parse, unescape_string, ErrorKind};
use llama_tool_parser::scanner::{
    find_next_pattern_start, parse_python_with_nom, parse_python_with_surrounding_text,
};
use llama_tool_parser::session::{parse_incremental, IncrementalParser, NomParserState};
use llama_tool_parser::value::{FunctionCall, Value};

fn kwarg_get<'a>(call: &'a FunctionCall, key: &str) -> Option<&'a Value> {
    for (k, v) in call.kwargs.iter() {
        if k == key {
            return Some(v);
        }
    }
    None
}

fn number_value(v: &Value) -> f64 {
    match v {
        Value::Number(t) => t.parse::<f64>().unwrap(),
        other => panic!("expected a number, got {:?}", other),
    }
}

#[test]
fn test_basic() {
    let source = r#"[
    get_weather_forecast(location="Tokyo", days=7),search_hotels(location="Shinjuku", check_in_date="2024-05-20", check_out_date="2024-05-27", budget_max_per_night=50.0, guest_count=2),
    get_attractions(location="Tokyo", count=3, category="all"),
    convert_currency(amount=1000, from_currency="USD", to_currency="JPY")
    ]"#;

    match parse_python(source) {
        Ok(function_calls) => {
            assert_eq!(function_calls.len(), 4);
            assert_eq!(function_calls[0].name, "get_weather_forecast");
            assert_eq!(function_calls[1].name, "search_hotels");
            assert_eq!(function_calls[2].name, "get_attractions");
            assert_eq!(function_calls[3].name, "convert_currency");
            assert_eq!(function_calls[0].kwargs.len(), 2);
            assert_eq!(function_calls[1].kwargs.len(), 5);
            assert_eq!(function_calls[2].kwargs.len(), 3);
            assert_eq!(function_calls[3].kwargs.len(), 3);
            assert_eq!(
                kwarg_get(&function_calls[0], "location"),
                Some(&Value::String("Tokyo".to_string()))
            );
            assert_eq!(
                kwarg_get(&function_calls[1], "location"),
                Some(&Value::String("Shinjuku".to_string()))
            );
            assert_eq!(
                kwarg_get(&function_calls[2], "location"),
                Some(&Value::String("Tokyo".to_string()))
            );
            assert_eq!(
                number_value(kwarg_get(&function_calls[1], "budget_max_per_night").unwrap()),
                50.0
            );
        }
        Err(e) => panic!("parse failed: {:?}", e),
    }
}

#[test]
fn test_strict_parse_requires_whole_input() {
    let ok = parse("[f(x=1)]").unwrap();
    assert_eq!(ok.len(), 1);
    assert_eq!(ok[0].name, "f");

    let err = parse("[f(x=1)] trailing").unwrap_err();
    assert_eq!(err.kind, ErrorKind::UnexpectedToken);
    assert_eq!(err.pos, 8);

    assert!(parse("not a call").is_err());
}

#[test]
fn test_parse_and_feed_agree_on_full_input() {
    let input = "[get_weather(city=\"SF\", metric=\"celsius\"), do_it(steps=[])]";
    let parsed = parse_python_with_nom(input).unwrap();

    let mut state = NomParserState::new();
    let fed = parse_incremental(&mut state, input).unwrap();

    assert_eq!(parsed, fed);
    assert_eq!(parsed.len(), 2);
}

#[test]
fn test_feed_empty_chunk_is_idempotent() {
    let mut state = NomParserState::new();
    let first = parse_incremental(&mut state, "Sure! [h(x=1)] done.").unwrap();
    let again = parse_incremental(&mut state, "").unwrap();
    assert_eq!(first, again);
    let third = parse_incremental(&mut state, "").unwrap();
    assert_eq!(first, third);
}

#[test]
fn test_chunk_split_inside_escape_sequence() {
    // the whole input holds one call whose string argument has an escaped
    // quote; the split point falls between the backslash and the quote
    let whole = "[f(x=\"a\\\"b\")]";
    let first = "[f(x=\"a\\";
    let second = "\"b\")]";
    assert_eq!(format!("{}{}", first, second), whole);

    let mut split_state = NomParserState::new();
    let _ = parse_incremental(&mut split_state, first).unwrap();
    assert_eq!(split_state.parsed_functions.len(), 0);
    let split_result = parse_incremental(&mut split_state, second).unwrap();

    let mut whole_state = NomParserState::new();
    let whole_result = parse_incremental(&mut whole_state, whole).unwrap();

    assert_eq!(split_result, whole_result);
    assert_eq!(split_result.len(), 1);
    assert_eq!(split_result[0].name, "f");
    assert_eq!(
        kwarg_get(&split_result[0], "x"),
        Some(&Value::String("a\"b".to_string()))
    );
}

#[test]
fn test_get_weather_scenario() {
    let result = parse_python_with_nom("[get_weather(city=\"SF\", metric=\"celsius\")]").unwrap();
    assert_eq!(result.len(), 1);
    assert_eq!(result[0].name, "get_weather");
    assert_eq!(result[0].kwargs.len(), 2);
    assert_eq!(
        kwarg_get(&result[0], "city"),
        Some(&Value::String("SF".to_string()))
    );
    assert_eq!(
        kwarg_get(&result[0], "metric"),
        Some(&Value::String("celsius".to_string()))
    );
}

#[test]
fn test_empty_list_argument_scenario() {
    let result = parse_python_with_nom("[do_it(steps=[])]").unwrap();
    assert_eq!(result.len(), 1);
    assert_eq!(result[0].name, "do_it");
    assert_eq!(kwarg_get(&result[0], "steps"), Some(&Value::List(vec![])));
}

#[test]
fn test_dict_flattening_scenario() {
    let result = parse_python_with_nom("[f(a={'x': 1})]").unwrap();
    assert_eq!(result.len(), 1);
    assert_eq!(result[0].name, "f");
    match kwarg_get(&result[0], "a").unwrap() {
        Value::List(entries) => {
            assert_eq!(entries.len(), 2);
            assert_eq!(entries[0], Value::String("x".to_string()));
            assert_eq!(number_value(&entries[1]), 1.0);
        }
        other => panic!("expected a flattened dict, got {:?}", other),
    }
}

#[test]
fn test_repeated_call_dedup_in_session() {
    // the raw scan sees both entries
    let raw = parse_python_with_nom("[g(), g()]").unwrap();
    assert_eq!(raw.len(), 2);
    assert_eq!(raw[0], raw[1]);

    // the session's deduplication collapses the structurally identical
    // repetition to one recorded call
    let mut state = NomParserState::new();
    let recorded = parse_incremental(&mut state, "[g(), g()]").unwrap();
    assert_eq!(recorded.len(), 1);
    assert_eq!(recorded[0].name, "g");
}

#[test]
fn test_scanner_ignores_surrounding_prose() {
    let result = parse_python_with_surrounding_text("Sure! [h(x=1)] done.").unwrap();
    assert_eq!(result.len(), 1);
    assert_eq!(result[0].name, "h");
    assert_eq!(result[0].kwargs.len(), 1);
    assert_eq!(number_value(kwarg_get(&result[0], "x").unwrap()), 1.0);
}

#[test]
fn test_strict_parse_reports_error_on_plain_text() {
    let result = parse_python_with_nom("not a call");
    match result {
        Err(e) => assert_eq!(e.kind, ErrorKind::UnexpectedToken),
        Ok(calls) => panic!("expected an error, got {:?}", calls),
    }
}

#[test]
fn test_unterminated_structure_error() {
    let result = parse_python_with_nom("[f(x=\"abc");
    match result {
        Err(e) => assert_eq!(e.kind, ErrorKind::UnterminatedStructure),
        Ok(calls) => panic!("expected an error, got {:?}", calls),
    }
}

#[test]
fn test_malformed_literal_error() {
    let result = parse_python_with_nom("[f(x=-)]");
    match result {
        Err(e) => assert_eq!(e.kind, ErrorKind::MalformedLiteral),
        Ok(calls) => panic!("expected an error, got {:?}", calls),
    }
}

#[test]
fn test_unsupported_engine_error() {
    let result = wrapped_parse_python("[f()]", "yacc");
    match result {
        Err(e) => assert_eq!(e.kind, ErrorKind::UnsupportedEngine),
        Ok(calls) => panic!("expected an error, got {:?}", calls),
    }
}

#[test]
fn test_engine_selector_dispatch() {
    let via_nom = wrapped_parse_python("[f(x=1)]", "nom").unwrap();
    let via_logos = wrapped_parse_python("[f(x=1)]", "logos").unwrap();
    assert_eq!(via_nom.len(), 1);
    assert_eq!(via_logos.len(), 1);
    assert_eq!(via_nom[0].name, "f");
    assert_eq!(via_logos[0].name, "f");
    assert_eq!(number_value(kwarg_get(&via_nom[0], "x").unwrap()), 1.0);
    assert_eq!(number_value(kwarg_get(&via_logos[0], "x").unwrap()), 1.0);
}

#[test]
fn test_unescape_string_resolves_escapes() {
    assert_eq!(unescape_string("a\\nb"), "a\nb");
    assert_eq!(unescape_string("a\\tb"), "a\tb");
    assert_eq!(unescape_string("a\\rb"), "a\rb");
    assert_eq!(unescape_string("\\\\"), "\\");
    assert_eq!(unescape_string("\\\""), "\"");
    assert_eq!(unescape_string("\\'"), "'");
    // any other escaped character is kept as itself
    assert_eq!(unescape_string("\\q"), "q");
    // a trailing lone backslash stays a backslash
    assert_eq!(unescape_string("abc\\"), "abc\\");
    assert_eq!(unescape_string(""), "");
}

#[test]
fn test_find_next_pattern_start_positions() {
    assert_eq!(find_next_pattern_start("no candidates here"), None);
    assert_eq!(find_next_pattern_start("ab[f()]"), Some(2));
    assert_eq!(find_next_pattern_start("ab<|python_start|>[f()]"), Some(2));
    // the earliest of marker and bracket wins
    assert_eq!(find_next_pattern_start("[x<|python_start|>"), Some(0));
}

#[test]
fn test_duplicate_keyword_overwrites_earlier() {
    let result = parse_python_with_nom("[f(a=1, a=2)]").unwrap();
    assert_eq!(result.len(), 1);
    assert_eq!(result[0].kwargs.len(), 1);
    assert_eq!(number_value(kwarg_get(&result[0], "a").unwrap()), 2.0);
}

#[test]
fn test_number_literal_forms() {
    let result =
        parse_python_with_nom("[f(a=-3, b=2.5, c=1e3, d=-1.5e-2)]").unwrap();
    assert_eq!(number_value(kwarg_get(&result[0], "a").unwrap()), -3.0);
    assert_eq!(number_value(kwarg_get(&result[0], "b").unwrap()), 2.5);
    assert_eq!(number_value(kwarg_get(&result[0], "c").unwrap()), 1000.0);
    assert_eq!(number_value(kwarg_get(&result[0], "d").unwrap()), -0.015);
}

#[test]
fn test_empty_call_list_parses_to_no_calls() {
    let result = parse_python_with_nom("[]").unwrap();
    assert_eq!(result.len(), 0);
}

#[test]
fn test_scanner_recovers_after_malformed_candidate() {
    let result =
        parse_python_with_surrounding_text("junk [broken( more [ok(x=True)] end").unwrap();
    assert_eq!(result.len(), 1);
    assert_eq!(result[0].name, "ok");
    assert_eq!(kwarg_get(&result[0], "x"), Some(&Value::Bool(true)));
}

#[test]
fn test_incremental_parser_class() {
    let mut parser = IncrementalParser::new();
    let first = parser.parse_chunk("[a(").unwrap();
    assert_eq!(first.len(), 0);
    let second = parser.parse_chunk("x=1)]").unwrap();
    assert_eq!(second.len(), 1);
    assert_eq!(parser.get_parsed_functions().len(), 1);
    parser.reset();
    assert_eq!(parser.get_parsed_functions().len(), 0);
}

#[test]
fn test_session_reset_clears_state() {
    let mut state = NomParserState::new();
    let _ = parse_incremental(&mut state, "[f(x=1)]").unwrap();
    assert_eq!(state.parsed_functions.len(), 1);
    state.reset();
    assert_eq!(state.parsed_functions.len(), 0);
    assert_eq!(state.remainder, "");
    let after = parse_incremental(&mut state, "[g()]").unwrap();
    assert_eq!(after.len(), 1);
    assert_eq!(after[0].name, "g");
}

#[test]
fn test_token_engine_skips_surrounding_noise() {
    let result = parse_python("I will call [f(x=\"v\")] now").unwrap();
    assert_eq!(result.len(), 1);
    assert_eq!(result[0].name, "f");
    assert_eq!(
        kwarg_get(&result[0], "x"),
        Some(&Value::String("v".to_string()))
    );
}

#[test]
fn test_token_engine_missing_value_becomes_empty() {
    let result = parse_python("[f(a=, b=1)]").unwrap();
    assert_eq!(result.len(), 1);
    assert_eq!(kwarg_get(&result[0], "a"), Some(&Value::Empty));
    assert_eq!(number_value(kwarg_get(&result[0], "b").unwrap()), 1.0);
}

#[test]
fn test_token_engine_keeps_string_escapes_raw() {
    // unlike the character engine, the token engine hands the body through
    // without resolving escapes
    let result = parse_python("[f(x=\"a\\\"b\")]").unwrap();
    assert_eq!(
        kwarg_get(&result[0], "x"),
        Some(&Value::String("a\\\"b".to_string()))
    );
}

#[test]
fn test_token_engine_tolerates_junk_between_arguments() {
    // the tolerant token engine skips a span no token matches; the strict
    // character engine refuses the same input
    let tolerant = parse_python("[f(x=1 @ y=2)]").unwrap();
    assert_eq!(tolerant.len(), 1);
    assert_eq!(tolerant[0].kwargs.len(), 2);
    assert_eq!(number_value(kwarg_get(&tolerant[0], "x").unwrap()), 1.0);
    assert_eq!(number_value(kwarg_get(&tolerant[0], "y").unwrap()), 2.0);

    assert!(parse("[f(x=1 @ y=2)]").is_err());
}

#[test]
fn test_token_stream_helpers() {
    let toks = tokenize("a=1, b=\"two\")");
    let (call, next) = parse_function_with_kwargs(&toks, 0, "f".to_string());
    assert_eq!(call.name, "f");
    assert_eq!(call.kwargs.len(), 2);
    assert_eq!(next, toks.len());

    // a closing parenthesis right after a value finishes the call
    let closing = tokenize(")");
    let (finished, after) = handle_post_value(&closing, 0, "g".to_string(), vec![]);
    match finished {
        Value::FunctionCall(c) => assert_eq!(c.name, "g"),
        other => panic!("expected a finished call, got {:?}", other),
    }
    assert_eq!(after, 1);

    // a comma is the signal to go on with the next argument
    let comma = tokenize(",");
    let (signal, after_comma) = handle_post_value(&comma, 0, "g".to_string(), vec![]);
    assert_eq!(signal, Value::Empty);
    assert_eq!(after_comma, 1);

    // a zero-leading integer lexes as two number tokens
    let zeros = tokenize("01");
    assert_eq!(zeros.len(), 2);
    assert_eq!(zeros[0], Ok(Token::Number("0".to_string())));
    assert_eq!(zeros[1], Ok(Token::Number("1".to_string())));
}

#[test]
fn test_marker_wrapped_input_through_session() {
    let mut state = NomParserState::new();
    let _ = parse_incremental(&mut state, "<|python_start|>[f(x=");
    assert_eq!(state.parsed_functions.len(), 0);
    let result = parse_incremental(&mut state, "1)]<|python_end|>").unwrap();
    assert_eq!(result.len(), 1);
    assert_eq!(result[0].name, "f");
}

use llama_tool_parser::session::{parse_incremental, NomParserState};
use llama_tool_parser::scanner::parse_python_with_nom;
use llama_tool_parser::value::{FunctionCall, Value};

fn create_function_call(name: &str, args: Vec<(&str, Value)>) -> FunctionCall {
    let mut kwargs = Vec::new();
    for (k, v) in args {
        kwargs.push((k.to_string(), v));
    }
    FunctionCall {
        name: name.to_string(),
        kwargs,
    }
}

fn num(text: &str) -> Value {
    Value::Number(text.to_string())
}

#[test]
fn test_basic_function_call() {
    let input = r#"[test_function(arg1="value1", arg2=42)]"#;

    let expected = vec![create_function_call(
        "test_function",
        vec![
            ("arg1", Value::String("value1".to_string())),
            ("arg2", num("42")),
        ],
    )];

    let result = parse_python_with_nom(input).unwrap();
    assert_eq!(result, expected);
    match &result[0].kwargs[1].1 {
        Value::Number(t) => assert_eq!(t.parse::<f64>().unwrap(), 42.0),
        other => panic!("expected a number, got {:?}", other),
    }
}

#[test]
fn test_multiple_function_calls() {
    let input = r#"[func1(arg="val1"), func2(arg=42)]"#;

    let expected = vec![
        create_function_call("func1", vec![("arg", Value::String("val1".to_string()))]),
        create_function_call("func2", vec![("arg", num("42"))]),
    ];

    let result = parse_python_with_nom(input).unwrap();
    assert_eq!(result, expected);
}

#[test]
fn test_python_markers() {
    let input = r#"<|python_start|>[test_function(arg="value")]<|python_end|>"#;

    let expected = vec![create_function_call(
        "test_function",
        vec![("arg", Value::String("value".to_string()))],
    )];

    let result = parse_python_with_nom(input).unwrap();
    assert_eq!(result, expected);
}

#[test]
fn test_incremental_parsing() {
    let mut state = NomParserState::new();

    let _ = parse_incremental(&mut state, "[test_function(");
    assert_eq!(state.parsed_functions.len(), 0);

    let _ = parse_incremental(&mut state, "arg1=\"value1\", ");
    assert_eq!(state.parsed_functions.len(), 0);

    let result = parse_incremental(&mut state, "arg2=42)]").unwrap();

    let expected = vec![create_function_call(
        "test_function",
        vec![
            ("arg1", Value::String("value1".to_string())),
            ("arg2", num("42")),
        ],
    )];

    assert_eq!(result, expected);
}

#[test]
fn test_incremental_multiple_functions() {
    let mut state = NomParserState::new();

    let _ = parse_incremental(&mut state, "[func1(arg=\"val1\"), func2(");
    assert_eq!(state.parsed_functions.len(), 0);

    let result = parse_incremental(&mut state, "arg=42)]").unwrap();

    let expected = vec![
        create_function_call("func1", vec![("arg", Value::String("val1".to_string()))]),
        create_function_call("func2", vec![("arg", num("42"))]),
    ];

    assert_eq!(result, expected);
}

#[test]
fn test_boolean_values() {
    let input = r#"[test_function(flag1=True, flag2=False)]"#;

    let expected = vec![create_function_call(
        "test_function",
        vec![("flag1", Value::Bool(true)), ("flag2", Value::Bool(false))],
    )];

    let result = parse_python_with_nom(input).unwrap();
    assert_eq!(result, expected);
}

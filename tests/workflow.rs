use pypes::marshal::to_json;
use pypes::value::{Json, Val, ValType};
use pypes::workflow::{build_args, capture_output, function_ref, interpolate, record_output, render_output, substitute, FunctionRef, WorkflowError};

fn s(x: &str) -> String {
    x.to_string()
}

fn slot(a: &str, b: &str) -> Val {
    Val::Record(vec![(s("start"), Val::Str(s(a))), (s("end"), Val::Str(s(b))), (s("is-free"), Val::Bool(true))])
}

#[test]
fn workflow_piping_substitutes_json_text() {
    let mut outputs: Vec<(String, Json)> = Vec::new();
    let results = vec![Val::List(vec![slot("10:00", "11:00")])];
    let out = capture_output(&results).unwrap();
    record_output(&mut outputs, "a", out);
    let text = interpolate("slots={{a.output}}", &outputs);
    assert_eq!(text, "slots=[{\"end\":\"11:00\",\"is-free\":true,\"start\":\"10:00\"}]");
    let args = build_args(&vec![ValType::Str], &Some(s("slots={{ a.output }}")), &outputs).unwrap();
    match &args[0] {
        Val::Str(x) => assert_eq!(x, &text),
        other => panic!("{:?}", other),
    }
}

#[test]
fn string_outputs_substitute_literally() {
    let mut outputs: Vec<(String, Json)> = Vec::new();
    record_output(&mut outputs, "b", Json::Str(s("tired")));
    assert_eq!(interpolate("state: {{b.output}}!", &outputs), "state: tired!");
    record_output(&mut outputs, "b", Json::Str(s("rested")));
    assert_eq!(outputs.len(), 1);
    assert_eq!(interpolate("{{b.output}}", &outputs), "rested");
}

#[test]
fn unresolved_tokens_are_marked() {
    let outputs: Vec<(String, Json)> = Vec::new();
    assert_eq!(interpolate("x {{ nope.output }} y", &outputs), "x UNRESOLVED(nope.output) y");
    assert_eq!(substitute(&outputs, "a.b.output"), "UNRESOLVED(a.b.output)");
    assert_eq!(interpolate("{{ not closed", &outputs), "{{ not closed");
    assert_eq!(interpolate("{{}}", &outputs), "{{}}");
}

#[test]
fn argument_arity_rules() {
    let outputs: Vec<(String, Json)> = Vec::new();
    assert!(build_args(&vec![], &Some(s("ignored")), &outputs).unwrap().is_empty());
    assert_eq!(build_args(&vec![ValType::Str, ValType::Str], &Some(s("x")), &outputs).unwrap_err(), WorkflowError::UnsupportedArity);
    assert_eq!(build_args(&vec![ValType::U32], &None, &outputs).unwrap_err(), WorkflowError::MissingInput);
    assert!(matches!(build_args(&vec![ValType::U32], &Some(s("42")), &outputs).unwrap()[0], Val::U32(42)));
    assert_eq!(build_args(&vec![ValType::U32], &Some(s("not json")), &outputs).unwrap_err(), WorkflowError::ArgTypeMismatch);
    assert_eq!(build_args(&vec![ValType::U32], &Some(s("\"x\"")), &outputs).unwrap_err(), WorkflowError::ArgTypeMismatch);
}

#[test]
fn function_names_split_at_first_dot() {
    match function_ref("calendar-api.get-free-slots") {
        FunctionRef::Nested { interface, function } => {
            assert_eq!(interface, "calendar-api");
            assert_eq!(function, "get-free-slots");
        }
        other => panic!("{:?}", other),
    }
    assert!(matches!(function_ref("run"), FunctionRef::Root(f) if f == "run"));
}

#[test]
fn json_text_and_parse() {
    let j = to_json(&Val::List(vec![Val::S32(-1), Val::Bool(false)]));
    assert_eq!(render_output(&j), "[-1,false]");
    assert_eq!(render_output(&Json::Str(s("plain"))), "plain");
    assert_eq!(render_output(&Json::Array(vec![Json::Number(18446744073709551615), Json::Number(-5)])), "[18446744073709551615,-5]");
    assert_eq!(render_output(&Json::Array(vec![Json::Number(1i128 << 70)])), "null");
    let outputs: Vec<(String, Json)> = Vec::new();
    let t = ValType::List(Box::new(ValType::Option(Box::new(ValType::U8))));
    let args = build_args(&vec![t], &Some(s("[1, null]")), &outputs).unwrap();
    assert_eq!(format!("{:?}", args[0]), format!("{:?}", Val::List(vec![Val::Option(Some(Box::new(Val::U8(1)))), Val::Option(None)])));
    assert_eq!(build_args(&vec![ValType::U32], &Some(s("1.5")), &outputs).unwrap_err(), WorkflowError::ArgTypeMismatch);
    assert_eq!(build_args(&vec![ValType::U32], &Some(s("{")), &outputs).unwrap_err(), WorkflowError::ArgTypeMismatch);
}

#[test]
fn token_whitespace_is_unicode() {
    let mut outputs: Vec<(String, Json)> = Vec::new();
    record_output(&mut outputs, "a", Json::Str(s("v")));
    assert_eq!(interpolate("[{{\u{A0}a.output\u{2003}}}]", &outputs), "[v]");
}

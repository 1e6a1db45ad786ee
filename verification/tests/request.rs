use laya_rust::json_text::json_text;
use laya_rust::request::{raw_question, request_parts, serialize_state};
use laya_rust::systemone::Json;

fn s(x: &str) -> String {
    x.to_string()
}

#[test]
fn a_request_splits_into_state_and_questions() {
    let q = Json::Object(vec![(s("type"), Json::Str(s("noul"))), (s("instructions"), Json::Str(s("Urgent?")))]);
    let req = Json::Object(vec![(s("questions"), Json::Object(vec![(s("u"), q)])), (s("state"), Json::Str(s("help")))]);
    let (state, qs) = request_parts(req).ok().unwrap();
    assert!(matches!(state, Json::Str(t) if t == "help"));
    assert_eq!(qs.len(), 1);
    assert_eq!(qs[0].0, "u");
    let req = Json::Object(vec![(s("questions"), Json::Object(vec![]))]);
    let (state, qs) = request_parts(req).ok().unwrap();
    assert!(matches!(state, Json::Null));
    assert!(qs.is_empty());
}

#[test]
fn a_request_without_a_questions_object_is_refused() {
    let missing = "missing \"questions\"".to_string();
    assert_eq!(request_parts(Json::Object(vec![(s("state"), Json::Null)])).err(), Some(missing.clone()));
    assert_eq!(request_parts(Json::Object(vec![(s("questions"), Json::Array(vec![]))])).err(), Some(missing.clone()));
    assert_eq!(request_parts(Json::Array(vec![])).err(), Some(missing));
}

#[test]
fn question_entries_give_type_instructions_and_criteria() {
    let q = Json::Object(vec![
        (s("type"), Json::Str(s("choice"))),
        (s("instructions"), Json::Array(vec![])),
        (s("criteria"), Json::Array(vec![Json::Str(s("a"))])),
    ]);
    let r = raw_question(s("d"), q);
    assert_eq!((r.id.as_str(), r.ty.as_deref(), r.instructions.as_deref()), ("d", Some("choice"), Some("[]")));
    assert!(matches!(r.criteria, Json::Array(a) if a.len() == 1));
    let q = Json::Object(vec![(s("type"), Json::Number(s("3"))), (s("instructions"), Json::Null)]);
    let r = raw_question(s("e"), q);
    assert_eq!((r.ty, r.instructions), (None, None));
    assert!(matches!(r.criteria, Json::Null));
}

#[test]
fn the_state_reads_as_its_text_or_its_json() {
    assert_eq!(serialize_state(&Json::Str(s("help [MASK]"))), "help [MASK]");
    let obj = Json::Object(vec![(s("a"), Json::Number(s("1"))), (s("b c"), Json::Array(vec![Json::Bool(true), Json::Null]))]);
    assert_eq!(serialize_state(&obj), "{\"a\":1,\"b c\":[true,null]}");
    assert_eq!(serialize_state(&Json::Null), "null");
    assert_eq!(serialize_state(&Json::Array(vec![Json::Str(s("x"))])), "[\"x\"]");
}

#[test]
fn non_string_instructions_read_as_their_json() {
    let q = Json::Object(vec![
        (s("type"), Json::Str(s("noul"))),
        (s("instructions"), Json::Object(vec![(s("ask"), Json::Str(s("is it \"urgent\"?\n")))])),
    ]);
    let r = raw_question(s("u"), q);
    assert_eq!(r.instructions.as_deref(), Some("{\"ask\":\"is it \\\"urgent\\\"?\\n\"}"));
}

#[test]
fn json_text_matches_serde_json() {
    let v = Json::Object(vec![
        (s("empty"), Json::Object(vec![])),
        (s("f"), Json::Bool(false)),
        (s("k\u{1}\t"), Json::Array(vec![Json::Number(s("1.5")), Json::Number(s("-3")), Json::Str(s("é\u{7f}\\/"))])),
        (s("list"), Json::Array(vec![])),
    ]);
    let text = json_text(&v);
    let parsed: serde_json::Value = serde_json::from_str(&text).unwrap();
    assert_eq!(serde_json::to_string(&parsed).unwrap(), text);
}

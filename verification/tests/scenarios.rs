use laya_rust::scenarios::scenario_entries;
use laya_rust::systemone::Json;

fn s(x: &str) -> String {
    x.to_string()
}

fn request(state: &str) -> Json {
    Json::Object(vec![(s("state"), Json::Str(s(state)))])
}

fn names(r: &[(String, Json)]) -> Vec<String> {
    r.iter().map(|e| e.0.clone()).collect()
}

#[test]
fn scenarios_under_a_key_take_their_names_and_requests() {
    let list = Json::Array(vec![
        Json::Object(vec![(s("name"), Json::Str(s("billing"))), (s("request"), request("a"))]),
        Json::Object(vec![(s("name"), Json::Number(s("7"))), (s("request"), request("b"))]),
        request("c"),
    ]);
    let file = Json::Object(vec![(s("scenarios"), list)]);
    let r = scenario_entries(file).unwrap();
    assert_eq!(names(&r), vec![s("billing"), s("scenario1"), s("scenario2")]);
    match &r[0].1 {
        Json::Object(m) => assert_eq!(m.len(), 1),
        _ => panic!("request expected"),
    }
    match &r[2].1 {
        Json::Object(m) => assert_eq!(m[0].0, "state"),
        _ => panic!("the scenario itself is its request"),
    }
}

#[test]
fn a_bare_list_and_a_single_request() {
    let r = scenario_entries(Json::Array(vec![request("a"), request("b")])).unwrap();
    assert_eq!(names(&r), vec![s("scenario0"), s("scenario1")]);
    let r = scenario_entries(request("only")).unwrap();
    assert_eq!(names(&r), vec![s("default")]);
}

#[test]
fn scenario_shapes_that_are_refused() {
    let bad = Json::Object(vec![(s("scenarios"), Json::Str(s("x")))]);
    assert_eq!(scenario_entries(bad).err(), Some(s("\"scenarios\" must be an array")));
    assert_eq!(
        scenario_entries(Json::Number(s("3"))).err(),
        Some(s("scenarios must be an object with \"scenarios\", an array, or a request object"))
    );
}

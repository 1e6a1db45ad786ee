//! The parts of a System One request: its state, and each question as the request gives it.
use crate::scenarios::key_index;
use crate::json_text::{json_repr, json_text};
use crate::systemone::{Json, RawQuestion, obj_get};
use vstd::prelude::*;

verus! {

/// The value under key `k` of an object, if the value is an object with that key.
pub open spec fn field(v: Json, k: Seq<char>) -> Option<Json> {
    match v {
        Json::Object(m) => obj_get(m@, k),
        _ => None,
    }
}

/// A request's state: the value under "state", null when there is none.
pub open spec fn state_of(req: Json) -> Json {
    match field(req, "state"@) {
        Some(s) => s,
        None => Json::Null,
    }
}

/// A request's questions, where its "questions" is an object: that object's entries.
pub open spec fn questions_of(req: Json) -> Option<Seq<(String, Json)>> {
    match field(req, "questions"@) {
        Some(Json::Object(q)) => Some(q@),
        _ => None,
    }
}

/// The value under key `k`, taken out of the entries.
fn take_field(m: Vec<(String, Json)>, k: &str) -> (r: Option<Json>)
    ensures
        r == obj_get(m@, k@),
{
    match key_index(&m, k) {
        Some(i) => {
            let mut m = m;
            let (_, v) = m.remove(i);
            Some(v)
        },
        None => None,
    }
}

/// Splits a request into its state (null when it has none) and the entries of its
/// questions, each question's id with its value; refused with "missing \"questions\"" when
/// its "questions" is not an object.
pub fn request_parts(req: Json) -> (r: Result<(Json, Vec<(String, Json)>), String>)
    ensures
        match questions_of(req) {
            Some(qs) => r matches Ok((s, es)) && s == state_of(req) && es@ == qs,
            None => r matches Err(e) && e@ == "missing \"questions\""@,
        },
{
    proof {
        reveal_strlit("missing \"questions\"");
        reveal_strlit("state");
        reveal_strlit("questions");
        assert("state"@.len() == 5 && "questions"@.len() == 9);
    }
    match req {
        Json::Object(m) => {
            let qi = match key_index(&m, "questions") {
                Some(i) => i,
                None => return Err("missing \"questions\"".to_owned()),
            };
            match &m[qi].1 {
                Json::Object(_) => {},
                _ => return Err("missing \"questions\"".to_owned()),
            }
            let si = key_index(&m, "state");
            let ghost mv = m@;
            assert(si matches Some(j) ==> j != qi);
            let mut m = m;
            let (state, questions) = match si {
                Some(si) => {
                    if si > qi {
                        let (_, s) = m.remove(si);
                        let (_, q) = m.remove(qi);
                        (s, q)
                    } else {
                        let (_, q) = m.remove(qi);
                        let (_, s) = m.remove(si);
                        (s, q)
                    }
                },
                None => {
                    let (_, q) = m.remove(qi);
                    (Json::Null, q)
                },
            };
            assert(questions == mv[qi as int].1);
            match questions {
                Json::Object(es) => Ok((state, es)),
                _ => Err("missing \"questions\"".to_owned()),
            }
        },
        _ => Err("missing \"questions\"".to_owned()),
    }
}

/// A question's instructions as the request gives them: none when absent or null, a string
/// as it is, and any other value as its compact JSON text.
pub open spec fn instructions_of(q: Json) -> Option<Seq<char>> {
    match field(q, "instructions"@) {
        None => None,
        Some(Json::Null) => None,
        Some(Json::Str(s)) => Some(s@),
        Some(v) => Some(json_repr(v)),
    }
}

/// One question of a request as its entry gives it: its type where that is a string, its
/// instructions (see `instructions_of`), and its criteria, null when it has none.
pub fn raw_question(id: String, q: Json) -> (r: RawQuestion)
    ensures
        r.id@ == id@,
        r.ty matches Some(t) ==> field(q, "type"@) matches Some(Json::Str(u)) && t@ == u@,
        r.ty is None ==> !(field(q, "type"@) matches Some(Json::Str(_))),
        r.instructions matches Some(t) ==> instructions_of(q) == Some(t@),
        r.instructions is None ==> instructions_of(q) is None,
        r.criteria == (match field(q, "criteria"@) {
            Some(c) => c,
            None => Json::Null,
        }),
{
    match q {
        Json::Object(m) => {
            let ty = match key_index(&m, "type") {
                Some(i) => match &m[i].1 {
                    Json::Str(t) => Some(t.clone()),
                    _ => None,
                },
                None => None,
            };
            let instructions = match key_index(&m, "instructions") {
                Some(i) => match &m[i].1 {
                    Json::Null => None,
                    Json::Str(s) => Some(s.clone()),
                    v => Some(json_text(v)),
                },
                None => None,
            };
            let criteria = match take_field(m, "criteria") {
                Some(c) => c,
                None => Json::Null,
            };
            RawQuestion { id, ty, instructions, criteria }
        },
        _ => RawQuestion { id, ty: None, instructions: None, criteria: Json::Null },
    }
}

/// The state as the model reads it: a string as it is, any other value as its compact JSON
/// text.
pub open spec fn state_text(state: Json) -> Seq<char> {
    match state {
        Json::Str(s) => s@,
        _ => json_repr(state),
    }
}

/// Writes the state as the model reads it (see `state_text`).
pub fn serialize_state(state: &Json) -> (r: String)
    ensures
        r@ == state_text(*state),
{
    match state {
        Json::Str(s) => s.clone(),
        _ => json_text(state),
    }
}

} // verus!

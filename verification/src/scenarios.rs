//! Scenario files for recording fixtures: named requests, in one of three shapes.
use crate::systemone::{decimal, decimal_str, obj_get, Json};
use crate::text::str_eq;
use vstd::prelude::*;

verus! {

/// A scenario's name: the string under its "name", else "scenario" and its position.
pub open spec fn entry_name(s: Json, i: int) -> Seq<char> {
    match s {
        Json::Object(m) => match obj_get(m@, "name"@) {
            Some(Json::Str(n)) => n@,
            _ => "scenario"@ + decimal(i as nat),
        },
        _ => "scenario"@ + decimal(i as nat),
    }
}

/// A scenario's request: the value under its "request", else the scenario itself.
pub open spec fn entry_request(s: Json) -> Json {
    match s {
        Json::Object(m) => match obj_get(m@, "request"@) {
            Some(r) => r,
            None => s,
        },
        _ => s,
    }
}

/// The named requests a list of scenarios gives, in order.
pub open spec fn entries_of(a: Seq<Json>) -> Seq<(Seq<char>, Json)> {
    Seq::new(a.len(), |i: int| (entry_name(a[i], i), entry_request(a[i])))
}

/// What a scenario file gives: an object whose "scenarios" is a list of scenarios, a bare
/// list of them, or a single request named "default"; or the complaint about its shape.
pub open spec fn scenario_list(v: Json) -> Result<Seq<(Seq<char>, Json)>, Seq<char>> {
    match v {
        Json::Object(m) => match obj_get(m@, "scenarios"@) {
            Some(Json::Array(a)) => Ok(entries_of(a@)),
            Some(_) => Err("\"scenarios\" must be an array"@),
            None => Ok(seq![("default"@, v)]),
        },
        Json::Array(a) => Ok(entries_of(a@)),
        _ => Err("scenarios must be an object with \"scenarios\", an array, or a request object"@),
    }
}

/// Where the first entry with key `k` is.
pub(crate) fn key_index(m: &Vec<(String, Json)>, k: &str) -> (r: Option<usize>)
    ensures
        match r {
            Some(i) => i < m@.len() && obj_get(m@, k@) == Some(m@[i as int].1) && m@[i as int].0@ == k@,
            None => obj_get(m@, k@) is None,
        },
{
    let mut i: usize = 0;
    assert(m@.subrange(0, m@.len() as int) == m@);
    while i < m.len()
        invariant
            i <= m@.len(),
            obj_get(m@, k@) == obj_get(m@.subrange(i as int, m@.len() as int), k@),
        decreases m.len() - i,
    {
        let ghost rest = m@.subrange(i as int, m@.len() as int);
        assert(rest[0] == m@[i as int]);
        assert(rest.subrange(1, rest.len() as int) == m@.subrange(i + 1, m@.len() as int));
        if str_eq(m[i].0.as_str(), k) {
            return Some(i);
        }
        i = i + 1;
    }
    None
}

/// A scenario's name and request, the scenario being the `i`th of its list.
fn entry(s: Json, i: usize) -> (r: (String, Json))
    ensures
        r.0@ == entry_name(s, i as int),
        r.1 == entry_request(s),
{
    proof {
        reveal_strlit("scenario");
    }
    let mut fallback = "scenario".to_owned();
    fallback.append(decimal_str(i as u64).as_str());
    match s {
        Json::Object(m) => {
            let name = match key_index(&m, "name") {
                Some(k) => match &m[k].1 {
                    Json::Str(n) => n.clone(),
                    _ => fallback,
                },
                None => fallback,
            };
            match key_index(&m, "request") {
                Some(k) => {
                    let mut m = m;
                    let (_, req) = m.remove(k);
                    (name, req)
                },
                None => (name, Json::Object(m)),
            }
        },
        other => (fallback, other),
    }
}

/// The named requests of a list of scenarios.
fn entries(a: Vec<Json>) -> (r: Vec<(String, Json)>)
    ensures
        r@.len() == a@.len(),
        forall|i: int| 0 <= i < a@.len() ==> (#[trigger] r@[i]).0@ == entries_of(a@)[i].0 && r@[i].1 == entries_of(a@)[i].1,
{
    let ghost av = a@;
    let mut out: Vec<(String, Json)> = Vec::new();
    for s in it: a.into_iter()
        invariant
            av == a@,
            it.seq() == av,
            out@.len() == it.index(),
            forall|i: int| 0 <= i < it.index() ==> (#[trigger] out@[i]).0@ == entries_of(av)[i].0 && out@[i].1 == entries_of(av)[i].1,
    {
        let ghost k = it.index() as int;
        assert(s == av[k]);
        let e = entry(s, out.len());
        out.push(e);
    }
    out
}

/// The named requests a scenario file gives, or what is wrong with its shape.
pub fn scenario_entries(v: Json) -> (r: Result<Vec<(String, Json)>, String>)
    ensures
        match scenario_list(v) {
            Ok(s) => r is Ok && r->Ok_0@.len() == s.len() && forall|i: int|
                0 <= i < s.len() ==> (#[trigger] r->Ok_0@[i]).0@ == s[i].0 && r->Ok_0@[i].1 == s[i].1,
            Err(e) => r is Err && r->Err_0@ == e,
        },
{
    proof {
        reveal_strlit("default");
        reveal_strlit("\"scenarios\" must be an array");
        reveal_strlit("scenarios must be an object with \"scenarios\", an array, or a request object");
    }
    match v {
        Json::Object(m) => match key_index(&m, "scenarios") {
            Some(k) => {
                let mut m = m;
                let (_, list) = m.remove(k);
                match list {
                    Json::Array(a) => Ok(entries(a)),
                    _ => Err("\"scenarios\" must be an array".to_owned()),
                }
            },
            None => {
                let mut out: Vec<(String, Json)> = Vec::new();
                out.push(("default".to_owned(), Json::Object(m)));
                Ok(out)
            },
        },
        Json::Array(a) => Ok(entries(a)),
        _ => Err("scenarios must be an object with \"scenarios\", an array, or a request object".to_owned()),
    }
}

} // verus!
